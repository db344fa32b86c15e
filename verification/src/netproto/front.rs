//! Reading takes a message off the front of the bytes and leaves the others.
use super::decode::DecodeError;
use super::parse;
use super::parse::Parsed;
use crate::messages::{ClientId, ServerId};
use vstd::prelude::*;

verus! {

/// Whether `rest` is the end of `b`, or all of it.
#[verifier::opaque]
pub open spec fn ends(b: Seq<u8>, rest: Seq<u8>) -> bool {
    &&& rest.len() <= b.len()
    &&& forall|i: int|
        0 <= i < rest.len() ==> #[trigger] rest[i] == b[b.len() - rest.len() + i]
}

/// Whether what was read, if anything was, leaves the end of `b` and takes at
/// least `least` bytes.
pub open spec fn takes<T>(b: Seq<u8>, parsed: Parsed<T>, least: nat) -> bool {
    parsed matches Ok((_, rest)) ==> ends(b, rest) && rest.len() + least <= b.len()
}

/// Whether bytes that came to `before`, come to `after` when `more` bytes
/// follow: what could be read is read as it was, and leaves the added bytes
/// too; what was wrong is wrong in the same way. Only an unexpected end may
/// become something else.
pub open spec fn settled<T>(before: Parsed<T>, after: Parsed<T>, more: Seq<u8>) -> bool {
    match before {
        Ok((value, rest)) => after == Ok::<(T, Seq<u8>), DecodeError>((value, rest + more)),
        Err(e) => e != DecodeError::UnexpectedEof ==> after == Err::<(T, Seq<u8>), DecodeError>(e),
    }
}

/// The end of an end is an end.
broadcast proof fn lemma_ends(a: Seq<u8>, b: Seq<u8>, c: Seq<u8>)
    requires
        #[trigger] ends(a, b),
        #[trigger] ends(b, c),
    ensures
        ends(a, c),
{
    reveal(ends);
}

/// Bytes are taken off the front.
pub proof fn lemma_bytes(b: Seq<u8>, len: nat, more: Seq<u8>)
    ensures
        takes(b, parse::bytes(b, len), len),
        settled(parse::bytes(b, len), parse::bytes(b + more, len), more),
{
    reveal(ends);
    if b.len() >= len {
        assert((b + more).take(len as int) =~= b.take(len as int));
        assert((b + more).skip(len as int) =~= b.skip(len as int) + more);
    }
}

/// A byte is taken off the front.
pub proof fn lemma_byte(b: Seq<u8>, more: Seq<u8>)
    ensures
        takes(b, parse::byte(b), 1),
        settled(parse::byte(b), parse::byte(b + more), more),
{
    reveal(ends);
    if b.len() >= 1 {
        assert((b + more).skip(1) =~= b.skip(1) + more);
    }
}

/// A number is taken off the front.
pub proof fn lemma_number(b: Seq<u8>, more: Seq<u8>)
    ensures
        takes(b, parse::number(b), 1),
        settled(parse::number(b), parse::number(b + more), more),
{
    broadcast use lemma_ends;

    lemma_byte(b, more);
    let rest = b.skip(1);
    lemma_bytes(rest, 2, more);
    lemma_bytes(rest, 4, more);
    lemma_bytes(rest, 8, more);
    lemma_bytes(rest, 16, more);
}

/// A count is taken off the front.
pub proof fn lemma_size(b: Seq<u8>, more: Seq<u8>)
    ensures
        takes(b, parse::size(b), 1),
        settled(parse::size(b), parse::size(b + more), more),
{
    broadcast use lemma_ends;

    lemma_number(b, more);
}

/// Counted bytes are taken off the front.
pub proof fn lemma_counted(b: Seq<u8>, more: Seq<u8>)
    ensures
        takes(b, parse::counted(b), 1),
        settled(parse::counted(b), parse::counted(b + more), more),
{
    broadcast use lemma_ends;

    lemma_size(b, more);
    if let Ok((len, rest)) = parse::size(b) {
        lemma_bytes(rest, len as nat, more);
    }
}

/// Identifiers are taken off the front.
pub proof fn lemma_uuid(b: Seq<u8>, more: Seq<u8>)
    ensures
        takes(b, parse::uuid(b), 1),
        settled(parse::uuid(b), parse::uuid(b + more), more),
        takes(b, parse::clientid(b), 1),
        settled(parse::clientid(b), parse::clientid(b + more), more),
        takes(b, parse::serverid(b), 1),
        settled(parse::serverid(b), parse::serverid(b + more), more),
{
    broadcast use lemma_ends;

    lemma_counted(b, more);
}

/// A text is taken off the front.
pub proof fn lemma_string(b: Seq<u8>, more: Seq<u8>)
    ensures
        takes(b, parse::string(b), 1),
        settled(parse::string(b), parse::string(b + more), more),
{
    broadcast use lemma_ends;

    lemma_counted(b, more);
}

/// An array is taken off the front.
pub proof fn lemma_array(b: Seq<u8>, len: nat, more: Seq<u8>)
    ensures
        takes(b, parse::array(b, len), 1),
        settled(parse::array(b, len), parse::array(b + more, len), more),
{
    broadcast use lemma_ends;

    lemma_counted(b, more);
}

/// An authentication message is taken off the front.
pub proof fn law_auth(b: Seq<u8>, more: Seq<u8>)
    ensures
        takes(b, parse::auth(b), 1),
        settled(parse::auth(b), parse::auth(b + more), more),
{
    broadcast use lemma_ends;

    lemma_byte(b, more);
    if let Ok((tag, rest)) = parse::byte(b) {
        lemma_array(rest, 16, more);
        lemma_uuid(rest, more);
        if let Ok((id, rest)) = parse::uuid(rest) {
            lemma_array(rest, 8, more);
        }
    }
}

/// Identifiers of clients are taken off the front.
pub proof fn lemma_client_ids(b: Seq<u8>, n: nat, seen: Seq<ClientId>, more: Seq<u8>)
    ensures
        takes(b, parse::client_ids(b, n, seen), 0),
        settled(parse::client_ids(b, n, seen), parse::client_ids(b + more, n, seen), more),
    decreases n,
{
    broadcast use lemma_ends;

    reveal(ends);
    if n > 0 {
        lemma_uuid(b, more);
        if let Ok((id, rest)) = parse::clientid(b) {
            lemma_client_ids(rest, (n - 1) as nat, seen.push(id), more);
        }
    }
}

/// Identifiers of servers are taken off the front.
pub proof fn lemma_server_ids(b: Seq<u8>, n: nat, seen: Seq<ServerId>, more: Seq<u8>)
    ensures
        takes(b, parse::server_ids(b, n, seen), 0),
        settled(parse::server_ids(b, n, seen), parse::server_ids(b + more, n, seen), more),
    decreases n,
{
    broadcast use lemma_ends;

    reveal(ends);
    if n > 0 {
        lemma_uuid(b, more);
        if let Ok((id, rest)) = parse::serverid(b) {
            lemma_server_ids(rest, (n - 1) as nat, seen.push(id), more);
        }
    }
}

/// Clients with their servers are taken off the front.
pub proof fn lemma_destinations(
    b: Seq<u8>,
    n: nat,
    seen: Seq<(ClientId, ServerId)>,
    more: Seq<u8>,
)
    ensures
        takes(b, parse::destinations(b, n, seen), 0),
        settled(parse::destinations(b, n, seen), parse::destinations(b + more, n, seen), more),
    decreases n,
{
    broadcast use lemma_ends;

    reveal(ends);
    if n > 0 {
        lemma_uuid(b, more);
        if let Ok((client, rest)) = parse::clientid(b) {
            lemma_uuid(rest, more);
            if let Ok((server, rest)) = parse::serverid(rest) {
                lemma_destinations(rest, (n - 1) as nat, seen.push((client, server)), more);
            }
        }
    }
}

/// Users with their names are taken off the front.
pub proof fn lemma_users(b: Seq<u8>, n: nat, seen: Map<u128, Seq<char>>, more: Seq<u8>)
    ensures
        takes(b, parse::users(b, n, seen), 0),
        settled(parse::users(b, n, seen), parse::users(b + more, n, seen), more),
    decreases n,
{
    broadcast use lemma_ends;

    reveal(ends);
    if n > 0 {
        lemma_uuid(b, more);
        if let Ok((id, rest)) = parse::uuid(b) {
            lemma_string(rest, more);
            if let Ok((name, rest)) = parse::string(rest) {
                lemma_users(rest, (n - 1) as nat, seen.insert(id, name), more);
            }
        }
    }
}

/// A list of users is taken off the front.
pub proof fn law_userlist(b: Seq<u8>, more: Seq<u8>)
    ensures
        takes(b, parse::userlist(b), 1),
        settled(parse::userlist(b), parse::userlist(b + more), more),
{
    broadcast use lemma_ends;

    lemma_size(b, more);
    if let Ok((n, rest)) = parse::size(b) {
        lemma_users(rest, n as nat, Map::empty(), more);
    }
}

/// A client's message is taken off the front.
pub proof fn law_client(b: Seq<u8>, more: Seq<u8>)
    ensures
        takes(b, parse::client(b), 1),
        settled(parse::client(b), parse::client(b + more), more),
{
    broadcast use lemma_ends;

    lemma_byte(b, more);
    if let Ok((tag, rest)) = parse::byte(b) {
        if tag == 0 {
            lemma_uuid(rest, more);
            if let Ok((dest, rest)) = parse::clientid(rest) {
                lemma_string(rest, more);
            }
        } else if tag == 1 {
            lemma_size(rest, more);
            if let Ok((n, rest)) = parse::size(rest) {
                lemma_client_ids(rest, n as nat, seq![], more);
                if let Ok((dest, rest)) = parse::client_ids(rest, n as nat, seq![]) {
                    lemma_string(rest, more);
                }
            }
        }
    }
}

/// An announcement is taken off the front.
pub proof fn lemma_announce(b: Seq<u8>, more: Seq<u8>)
    ensures
        takes(b, parse::announce(b), 1),
        settled(parse::announce(b), parse::announce(b + more), more),
{
    broadcast use lemma_ends;

    lemma_size(b, more);
    if let Ok((n, rest)) = parse::size(b) {
        lemma_server_ids(rest, n as nat, seq![], more);
        if let Ok((route, rest)) = parse::server_ids(rest, n as nat, seq![]) {
            law_userlist(rest, more);
        }
    }
}

/// A fully qualified message is taken off the front.
pub proof fn lemma_qualified(b: Seq<u8>, more: Seq<u8>)
    ensures
        takes(b, parse::qualified(b), 1),
        settled(parse::qualified(b), parse::qualified(b + more), more),
{
    broadcast use lemma_ends;

    lemma_uuid(b, more);
    if let Ok((src, rest)) = parse::clientid(b) {
        lemma_uuid(rest, more);
        if let Ok((srcsrv, rest)) = parse::serverid(rest) {
            lemma_size(rest, more);
            if let Ok((n, rest)) = parse::size(rest) {
                lemma_destinations(rest, n as nat, seq![], more);
                if let Ok((dsts, rest)) = parse::destinations(rest, n as nat, seq![]) {
                    lemma_string(rest, more);
                }
            }
        }
    }
}

/// A server's message is taken off the front.
pub proof fn law_server(b: Seq<u8>, more: Seq<u8>)
    ensures
        takes(b, parse::server(b), 1),
        settled(parse::server(b), parse::server(b + more), more),
{
    broadcast use lemma_ends;

    lemma_byte(b, more);
    if let Ok((tag, rest)) = parse::byte(b) {
        lemma_announce(rest, more);
        lemma_qualified(rest, more);
    }
}

/// A reply to a client is taken off the front.
pub proof fn law_client_reply(b: Seq<u8>, more: Seq<u8>)
    ensures
        takes(b, parse::client_reply(b), 1),
        settled(parse::client_reply(b), parse::client_reply(b + more), more),
{
    broadcast use lemma_ends;

    lemma_size(b, more);
    if let Ok((tag, rest)) = parse::size(b) {
        if tag == 1 {
            lemma_size(rest, more);
            if let Ok((err_tag, rest)) = parse::size(rest) {
                lemma_uuid(rest, more);
            }
        } else if tag == 3 {
            lemma_uuid(rest, more);
            if let Ok((id, rest)) = parse::serverid(rest) {
                law_server(rest, more);
            }
        }
    }
}

/// The answer to a client that polls is taken off the front.
pub proof fn law_client_poll_reply(b: Seq<u8>, more: Seq<u8>)
    ensures
        takes(b, parse::client_poll_reply(b), 1),
        settled(parse::client_poll_reply(b), parse::client_poll_reply(b + more), more),
{
    broadcast use lemma_ends;

    lemma_size(b, more);
    if let Ok((tag, rest)) = parse::size(b) {
        if tag == 0 {
            lemma_uuid(rest, more);
            if let Ok((src, rest)) = parse::clientid(rest) {
                lemma_string(rest, more);
            }
        } else if tag == 1 {
            lemma_size(rest, more);
            if let Ok((err_tag, rest)) = parse::size(rest) {
                lemma_uuid(rest, more);
            }
        }
    }
}

/// A client's query is taken off the front.
pub proof fn law_client_query(b: Seq<u8>, more: Seq<u8>)
    ensures
        takes(b, parse::client_query(b), 1),
        settled(parse::client_query(b), parse::client_query(b + more), more),
{
    broadcast use lemma_ends;

    lemma_size(b, more);
    if let Ok((tag, rest)) = parse::size(b) {
        lemma_string(rest, more);
        law_client(rest, more);
    }
}

/// What stands before the content of a sequenced request is taken off the
/// front.
pub proof fn law_sequence_header(b: Seq<u8>, more: Seq<u8>)
    ensures
        takes(b, parse::sequence_header(b), 1),
        settled(parse::sequence_header(b), parse::sequence_header(b + more), more),
{
    broadcast use lemma_ends;

    lemma_number(b, more);
    if let Ok((seqid, rest)) = parse::number(b) {
        lemma_uuid(rest, more);
        if let Ok((src, rest)) = parse::clientid(rest) {
            lemma_number(rest, more);
        }
    }
}

} // verus!
