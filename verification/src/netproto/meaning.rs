//! What bytes are read as, and why some are not.
use super::decode;
use super::decode::DecodeError;
use super::parse;
use super::parse::Parsed;
use crate::endian;
use crate::messages;
use crate::messages::{
    AuthMessageView, ClientError, ClientId, ClientMessageView, ClientPollReplyView,
    ClientQueryView, ClientReplyView, DelayedError, FullyQualifiedMessageView, Sequence, ServerId,
    ServerMessageView,
};
use std::collections::HashMap;
use vstd::arithmetic::power;
use vstd::prelude::*;
use vstd::utf8;

verus! {

/// Whether a value was read, with `rest` behind it.
pub open spec fn reads<T>(parsed: Parsed<T>, value: T, rest: Seq<u8>) -> bool {
    parsed == Ok::<(T, Seq<u8>), DecodeError>((value, rest))
}

/// Whether nothing was read, for that reason.
pub open spec fn fails<T>(parsed: Parsed<T>, e: DecodeError) -> bool {
    parsed == Err::<(T, Seq<u8>), DecodeError>(e)
}

/// A result that agrees with what was read is that value, and leaves the bytes
/// behind it; one that agrees with a failure is that failure.
pub proof fn law_agrees<T>(
    value: T,
    rest: Seq<u8>,
    e: DecodeError,
    result: Result<T, DecodeError>,
    after: Seq<u8>,
)
    ensures
        parse::agrees(Ok((value, rest)), result, after) <==> result == Ok::<T, DecodeError>(value)
            && after == rest,
        parse::agrees(Err(e), result, after) <==> result == Err::<T, DecodeError>(e),
{
}

/// What a result says is what its value says, or its failure.
pub proof fn law_viewed<T: View>(
    value: T,
    users: HashMap<u128, String>,
    header: (u128, ClientId, u128),
    e: DecodeError,
)
    ensures
        parse::viewed(Ok::<T, DecodeError>(value)) == Ok::<T::V, DecodeError>(value@),
        parse::viewed(Err::<T, DecodeError>(e)) == Err::<T::V, DecodeError>(e),
        decode::viewed_users(Ok::<HashMap<u128, String>, DecodeError>(users)) == Ok::<
            Map<u128, Seq<char>>,
            DecodeError,
        >(messages::names(users@)),
        decode::viewed_users(Err::<HashMap<u128, String>, DecodeError>(e)) == Err::<
            Map<u128, Seq<char>>,
            DecodeError,
        >(e),
        decode::with_content(header, Ok::<T, DecodeError>(value)) == Ok::<
            Sequence<T>,
            DecodeError,
        >(
            Sequence { seqid: header.0, src: header.1, workproof: header.2, content: value },
        ),
        decode::with_content(header, Err::<T, DecodeError>(e)) == Err::<Sequence<T>, DecodeError>(
            e,
        ),
{
}

/// A number is a byte up to 250, or follows a marker in 2, 4, 8 or 16 bytes,
/// which are its digits to the base 256 with the least significant one first.
/// No number starts with 255.
pub proof fn law_number(b: Seq<u8>)
    ensures
        b.len() == 0 ==> fails(parse::number(b), DecodeError::UnexpectedEof),
        b.len() > 0 && b[0] <= 250 ==> reads(parse::number(b), b[0] as u128, b.skip(1)),
        b.len() > 0 && b[0] == 255 ==> fails(parse::number(b), DecodeError::InvalidMarker),
        b.len() > 0 && 251 <= b[0] <= 254 ==> {
            let len = if b[0] == 251 {
                2int
            } else if b[0] == 252 {
                4int
            } else if b[0] == 253 {
                8int
            } else {
                16int
            };
            if b.len() <= len {
                fails(parse::number(b), DecodeError::UnexpectedEof)
            } else {
                &&& parse::number(b) matches Ok((n, rest))
                &&& rest == b.skip(1 + len)
                &&& n < power::pow(256, len as nat)
                &&& forall|i: int|
                    1 <= i <= len ==> #[trigger] b[i] == (n as int / power::pow(
                        256,
                        (i - 1) as nat,
                    )) % 256
            }
        },
{
    if b.len() > 0 && 251 <= b[0] <= 254 {
        let len: int = if b[0] == 251 {
            2
        } else if b[0] == 252 {
            4
        } else if b[0] == 253 {
            8
        } else {
            16
        };
        if b.len() > len {
            let digits = b.skip(1).take(len);
            endian::lemma_byte_limits();
            endian::lemma_le_bytes_of_value(digits);
            endian::law_le_value(digits, 0);
            assert(b.skip(1).skip(len) =~= b.skip(1 + len));
            assert forall|i: int| 1 <= i <= len implies #[trigger] b[i] == (endian::le_value(
                digits,
            ) as int / power::pow(256, (i - 1) as nat)) % 256 by {
                endian::law_le_value(digits, i - 1);
                assert(digits[i - 1] == b[i]);
            }
        }
    }
}

/// A count or a tag is a number, as far as a `usize` holds it.
pub proof fn law_size(b: Seq<u8>)
    ensures
        match parse::number(b) {
            Ok((n, rest)) => reads(parse::size(b), n as usize, rest),
            Err(e) => fails(parse::size(b), e),
        },
{
}

/// Counted bytes are as many as their count says.
pub proof fn law_counted(b: Seq<u8>)
    ensures
        match parse::size(b) {
            Ok((n, rest)) => if rest.len() < n {
                fails(parse::counted(b), DecodeError::UnexpectedEof)
            } else {
                reads(
                    parse::counted(b),
                    rest.subrange(0, n as int),
                    rest.subrange(n as int, rest.len() as int),
                )
            },
            Err(e) => fails(parse::counted(b), e),
        },
{
}

/// An identifier is the number with the sixteen counted bytes as its digits to
/// the base 256, the most significant one first.
pub proof fn law_identifier(b: Seq<u8>)
    ensures
        match parse::counted(b) {
            Ok((digits, rest)) => if digits.len() != 16 {
                &&& fails(parse::uuid(b), DecodeError::InvalidUuid)
                &&& fails(parse::clientid(b), DecodeError::InvalidUuid)
                &&& fails(parse::serverid(b), DecodeError::InvalidUuid)
            } else {
                &&& parse::uuid(b) matches Ok((id, after))
                &&& after == rest
                &&& reads(parse::clientid(b), ClientId(id), rest)
                &&& reads(parse::serverid(b), ServerId(id), rest)
                &&& forall|i: int|
                    0 <= i < 16 ==> #[trigger] digits[i] == (id as int / power::pow(
                        256,
                        (15 - i) as nat,
                    )) % 256
            },
            Err(e) => {
                &&& fails(parse::uuid(b), e)
                &&& fails(parse::clientid(b), e)
                &&& fails(parse::serverid(b), e)
            },
        },
{
    if let Ok((digits, rest)) = parse::counted(b) {
        if digits.len() == 16 {
            let back = digits.reverse();
            endian::lemma_byte_limits();
            endian::lemma_le_bytes_of_value(back);
            assert forall|i: int| 0 <= i < 16 implies #[trigger] digits[i] == (endian::le_value(
                back,
            ) as int / power::pow(256, (15 - i) as nat)) % 256 by {
                endian::law_le_value(back, 15 - i);
                assert(back[15 - i] == digits[i]);
            }
        }
    }
}

/// A text is what its counted bytes are in UTF-8; bytes that are not UTF-8 give
/// the text that is put in their place.
pub proof fn law_string(b: Seq<u8>)
    ensures
        match parse::counted(b) {
            Ok((bytes, rest)) => if utf8::valid_utf8(bytes) {
                reads(parse::string(b), utf8::decode_utf8(bytes), rest)
            } else {
                reads(parse::string(b), parse::lossy_utf8(bytes), rest)
            },
            Err(e) => fails(parse::string(b), e),
        },
{
}

/// An array is its counted bytes, if these are as many as it holds.
pub proof fn law_array(b: Seq<u8>, len: nat)
    ensures
        match parse::counted(b) {
            Ok((bytes, rest)) => if bytes.len() == len {
                reads(parse::array(b, len), bytes, rest)
            } else {
                fails(parse::array(b, len), DecodeError::InvalidLength)
            },
            Err(e) => fails(parse::array(b, len), e),
        },
{
}

/// What an authentication message is read as, by its first byte.
pub proof fn law_auth(b: Seq<u8>)
    ensures
        b.len() == 0 ==> fails(parse::auth(b), DecodeError::UnexpectedEof),
        b.len() > 0 && b[0] > 2 ==> fails(parse::auth(b), DecodeError::InvalidTag),
        b.len() > 0 && b[0] == 0 ==> match parse::clientid(b.skip(1)) {
            Ok((user, mid)) => match parse::array(mid, 8) {
                Ok((nonce, rest)) => reads(
                    parse::auth(b),
                    AuthMessageView::Hello { user, nonce },
                    rest,
                ),
                Err(e) => fails(parse::auth(b), e),
            },
            Err(e) => fails(parse::auth(b), e),
        },
        b.len() > 0 && b[0] == 1 ==> match parse::serverid(b.skip(1)) {
            Ok((server, mid)) => match parse::array(mid, 8) {
                Ok((nonce, rest)) => reads(
                    parse::auth(b),
                    AuthMessageView::Nonce { server, nonce },
                    rest,
                ),
                Err(e) => fails(parse::auth(b), e),
            },
            Err(e) => fails(parse::auth(b), e),
        },
        b.len() > 0 && b[0] == 2 ==> match parse::array(b.skip(1), 16) {
            Ok((response, rest)) => reads(
                parse::auth(b),
                AuthMessageView::Auth { response },
                rest,
            ),
            Err(e) => fails(parse::auth(b), e),
        },
{
}

/// Reading one identifier of a client more is reading it behind the others.
pub proof fn law_client_ids(b: Seq<u8>, n: nat, seen: Seq<ClientId>)
    ensures
        reads(parse::client_ids(b, 0, seen), seen, b),
        match parse::client_ids(b, n, seen) {
            Ok((ids, mid)) => match parse::clientid(mid) {
                Ok((id, rest)) => reads(parse::client_ids(b, n + 1, seen), ids.push(id), rest),
                Err(e) => fails(parse::client_ids(b, n + 1, seen), e),
            },
            Err(e) => fails(parse::client_ids(b, n + 1, seen), e),
        },
    decreases n,
{
    if n > 0 {
        if let Ok((id, rest)) = parse::clientid(b) {
            law_client_ids(rest, (n - 1) as nat, seen.push(id));
        }
    } else {
        if let Ok((id, rest)) = parse::clientid(b) {
            assert(parse::client_ids(rest, 0, seen.push(id)) == Ok::<
                (Seq<ClientId>, Seq<u8>),
                DecodeError,
            >((seen.push(id), rest)));
        }
    }
}

/// Reading one identifier of a server more is reading it behind the others.
pub proof fn law_server_ids(b: Seq<u8>, n: nat, seen: Seq<ServerId>)
    ensures
        reads(parse::server_ids(b, 0, seen), seen, b),
        match parse::server_ids(b, n, seen) {
            Ok((ids, mid)) => match parse::serverid(mid) {
                Ok((id, rest)) => reads(parse::server_ids(b, n + 1, seen), ids.push(id), rest),
                Err(e) => fails(parse::server_ids(b, n + 1, seen), e),
            },
            Err(e) => fails(parse::server_ids(b, n + 1, seen), e),
        },
    decreases n,
{
    if n > 0 {
        if let Ok((id, rest)) = parse::serverid(b) {
            law_server_ids(rest, (n - 1) as nat, seen.push(id));
        }
    } else {
        if let Ok((id, rest)) = parse::serverid(b) {
            assert(parse::server_ids(rest, 0, seen.push(id)) == Ok::<
                (Seq<ServerId>, Seq<u8>),
                DecodeError,
            >((seen.push(id), rest)));
        }
    }
}

/// Reading one destination more is reading a client and its server behind the
/// others.
pub proof fn law_destinations(b: Seq<u8>, n: nat, seen: Seq<(ClientId, ServerId)>)
    ensures
        reads(parse::destinations(b, 0, seen), seen, b),
        match parse::destinations(b, n, seen) {
            Ok((dsts, mid)) => match parse::clientid(mid) {
                Ok((client, mid)) => match parse::serverid(mid) {
                    Ok((server, rest)) => reads(
                        parse::destinations(b, n + 1, seen),
                        dsts.push((client, server)),
                        rest,
                    ),
                    Err(e) => fails(parse::destinations(b, n + 1, seen), e),
                },
                Err(e) => fails(parse::destinations(b, n + 1, seen), e),
            },
            Err(e) => fails(parse::destinations(b, n + 1, seen), e),
        },
    decreases n,
{
    if n > 0 {
        if let Ok((dst, rest)) = parse::destination(b) {
            law_destinations(rest, (n - 1) as nat, seen.push(dst));
        }
    } else {
        if let Ok((dst, rest)) = parse::destination(b) {
            assert(parse::destinations(rest, 0, seen.push(dst)) == Ok::<
                (Seq<(ClientId, ServerId)>, Seq<u8>),
                DecodeError,
            >((seen.push(dst), rest)));
        }
    }
}

/// Reading one user more is reading an identifier and a name behind the others;
/// the name replaces an earlier one of the same identifier.
pub proof fn law_users(b: Seq<u8>, n: nat, seen: Map<u128, Seq<char>>)
    ensures
        reads(parse::users(b, 0, seen), seen, b),
        match parse::users(b, n, seen) {
            Ok((users, mid)) => match parse::uuid(mid) {
                Ok((id, mid)) => match parse::string(mid) {
                    Ok((name, rest)) => reads(
                        parse::users(b, n + 1, seen),
                        users.insert(id, name),
                        rest,
                    ),
                    Err(e) => fails(parse::users(b, n + 1, seen), e),
                },
                Err(e) => fails(parse::users(b, n + 1, seen), e),
            },
            Err(e) => fails(parse::users(b, n + 1, seen), e),
        },
    decreases n,
{
    if n > 0 {
        if let Ok((entry, rest)) = parse::user(b) {
            law_users(rest, (n - 1) as nat, seen.insert(entry.0, entry.1));
        }
    } else {
        if let Ok((entry, rest)) = parse::user(b) {
            assert(parse::users(rest, 0, seen.insert(entry.0, entry.1)) == Ok::<
                (Map<u128, Seq<char>>, Seq<u8>),
                DecodeError,
            >((seen.insert(entry.0, entry.1), rest)));
        }
    }
}

/// A list of users is as many users as its count says.
pub proof fn law_userlist(b: Seq<u8>)
    ensures
        match parse::size(b) {
            Ok((n, mid)) => parse::userlist(b) == parse::users(mid, n as nat, Map::empty()),
            Err(e) => fails(parse::userlist(b), e),
        },
{
}

/// What a client's message is read as, by its first byte.
pub proof fn law_client(b: Seq<u8>)
    ensures
        b.len() == 0 ==> fails(parse::client(b), DecodeError::UnexpectedEof),
        b.len() > 0 && b[0] > 1 ==> fails(parse::client(b), DecodeError::InvalidTag),
        b.len() > 0 && b[0] == 0 ==> match parse::clientid(b.skip(1)) {
            Ok((dest, mid)) => match parse::string(mid) {
                Ok((content, rest)) => reads(
                    parse::client(b),
                    ClientMessageView::Text { dest, content },
                    rest,
                ),
                Err(e) => fails(parse::client(b), e),
            },
            Err(e) => fails(parse::client(b), e),
        },
        b.len() > 0 && b[0] == 1 ==> match parse::size(b.skip(1)) {
            Ok((n, mid)) => match parse::client_ids(mid, n as nat, seq![]) {
                Ok((dest, mid)) => match parse::string(mid) {
                    Ok((content, rest)) => reads(
                        parse::client(b),
                        ClientMessageView::MText { dest, content },
                        rest,
                    ),
                    Err(e) => fails(parse::client(b), e),
                },
                Err(e) => fails(parse::client(b), e),
            },
            Err(e) => fails(parse::client(b), e),
        },
{
}

/// What a server's message is read as, by its first byte.
pub proof fn law_server(b: Seq<u8>)
    ensures
        b.len() == 0 ==> fails(parse::server(b), DecodeError::UnexpectedEof),
        b.len() > 0 && b[0] > 1 ==> fails(parse::server(b), DecodeError::InvalidTag),
        b.len() > 0 && b[0] == 0 ==> match parse::size(b.skip(1)) {
            Ok((n, mid)) => match parse::server_ids(mid, n as nat, seq![]) {
                Ok((route, mid)) => match parse::userlist(mid) {
                    Ok((clients, rest)) => reads(
                        parse::server(b),
                        ServerMessageView::Announce { route, clients },
                        rest,
                    ),
                    Err(e) => fails(parse::server(b), e),
                },
                Err(e) => fails(parse::server(b), e),
            },
            Err(e) => fails(parse::server(b), e),
        },
        b.len() > 0 && b[0] == 1 ==> match parse::clientid(b.skip(1)) {
            Ok((src, mid)) => match parse::serverid(mid) {
                Ok((srcsrv, mid)) => match parse::size(mid) {
                    Ok((n, mid)) => match parse::destinations(mid, n as nat, seq![]) {
                        Ok((dsts, mid)) => match parse::string(mid) {
                            Ok((content, rest)) => reads(
                                parse::server(b),
                                ServerMessageView::Message(
                                    FullyQualifiedMessageView { src, srcsrv, dsts, content },
                                ),
                                rest,
                            ),
                            Err(e) => fails(parse::server(b), e),
                        },
                        Err(e) => fails(parse::server(b), e),
                    },
                    Err(e) => fails(parse::server(b), e),
                },
                Err(e) => fails(parse::server(b), e),
            },
            Err(e) => fails(parse::server(b), e),
        },
{
}

/// What a reply to a client is read as, by its tag and, for an error, by the
/// tag of that.
pub proof fn law_client_reply(b: Seq<u8>)
    ensures
        match parse::size(b) {
            Ok((tag, mid)) => {
                &&& tag == 0 ==> reads(parse::client_reply(b), ClientReplyView::Delivered, mid)
                &&& tag == 1 ==> match parse::size(mid) {
                    Ok((err, mid)) => {
                        let is = |e: ClientError, rest: Seq<u8>|
                            reads(parse::client_reply(b), ClientReplyView::Error(e), rest);
                        &&& err == 0 ==> is(ClientError::WorkProofError, mid)
                        &&& err == 1 ==> is(ClientError::UnknownClient, mid)
                        &&& err == 2 ==> is(ClientError::SequenceError, mid)
                        &&& err == 3 ==> match parse::clientid(mid) {
                            Ok((id, rest)) => is(ClientError::BoxFull(id), rest),
                            Err(e) => fails(parse::client_reply(b), e),
                        }
                        &&& err == 4 ==> is(ClientError::InternalError, mid)
                        &&& err > 4 ==> fails(
                            parse::client_reply(b),
                            DecodeError::InvalidErrorTag,
                        )
                    },
                    Err(e) => fails(parse::client_reply(b), e),
                }
                &&& tag == 2 ==> reads(parse::client_reply(b), ClientReplyView::Delayed, mid)
                &&& tag == 3 ==> match parse::serverid(mid) {
                    Ok((id, mid)) => match parse::server(mid) {
                        Ok((msg, rest)) => reads(
                            parse::client_reply(b),
                            ClientReplyView::Transfer(id, msg),
                            rest,
                        ),
                        Err(e) => fails(parse::client_reply(b), e),
                    },
                    Err(e) => fails(parse::client_reply(b), e),
                }
                &&& tag > 3 ==> fails(parse::client_reply(b), DecodeError::InvalidTag)
            },
            Err(e) => fails(parse::client_reply(b), e),
        },
{
}

/// Reading replies goes on behind each reply, and ends with the failure of the
/// first that cannot be read.
pub proof fn law_client_replies_end(b: Seq<u8>)
    ensures
        match parse::client_reply(b) {
            Ok((_, rest)) => parse::client_replies_end(b) == parse::client_replies_end(rest),
            Err(e) => parse::client_replies_end(b) == e,
        },
{
}

/// What the answer to a client that polls is read as, by its tag.
pub proof fn law_client_poll_reply(b: Seq<u8>)
    ensures
        match parse::size(b) {
            Ok((tag, mid)) => {
                &&& tag == 0 ==> match parse::clientid(mid) {
                    Ok((src, mid)) => match parse::string(mid) {
                        Ok((content, rest)) => reads(
                            parse::client_poll_reply(b),
                            ClientPollReplyView::Message { src, content },
                            rest,
                        ),
                        Err(e) => fails(parse::client_poll_reply(b), e),
                    },
                    Err(e) => fails(parse::client_poll_reply(b), e),
                }
                &&& tag == 1 ==> match parse::size(mid) {
                    Ok((err, mid)) => if err == 0 {
                        match parse::clientid(mid) {
                            Ok((id, rest)) => reads(
                                parse::client_poll_reply(b),
                                ClientPollReplyView::DelayedError(
                                    DelayedError::UnknownRecipient(id),
                                ),
                                rest,
                            ),
                            Err(e) => fails(parse::client_poll_reply(b), e),
                        }
                    } else {
                        fails(parse::client_poll_reply(b), DecodeError::InvalidErrorTag)
                    },
                    Err(e) => fails(parse::client_poll_reply(b), e),
                }
                &&& tag == 2 ==> reads(
                    parse::client_poll_reply(b),
                    ClientPollReplyView::Nothing,
                    mid,
                )
                &&& tag > 2 ==> fails(parse::client_poll_reply(b), DecodeError::InvalidTag)
            },
            Err(e) => fails(parse::client_poll_reply(b), e),
        },
{
}

/// What a client's query is read as, by its tag.
pub proof fn law_client_query(b: Seq<u8>)
    ensures
        match parse::size(b) {
            Ok((tag, mid)) => {
                &&& tag == 0 ==> match parse::string(mid) {
                    Ok((name, rest)) => reads(
                        parse::client_query(b),
                        ClientQueryView::Register(name),
                        rest,
                    ),
                    Err(e) => fails(parse::client_query(b), e),
                }
                &&& tag == 1 ==> match parse::client(mid) {
                    Ok((msg, rest)) => reads(
                        parse::client_query(b),
                        ClientQueryView::Message(msg),
                        rest,
                    ),
                    Err(e) => fails(parse::client_query(b), e),
                }
                &&& tag == 2 ==> reads(parse::client_query(b), ClientQueryView::Poll, mid)
                &&& tag == 3 ==> reads(parse::client_query(b), ClientQueryView::ListUsers, mid)
                &&& tag > 3 ==> fails(parse::client_query(b), DecodeError::InvalidTag)
            },
            Err(e) => fails(parse::client_query(b), e),
        },
{
}

/// What stands before the content of a request: its number, its client, and its
/// proof of work.
pub proof fn law_sequence_header(b: Seq<u8>)
    ensures
        match parse::number(b) {
            Ok((seqid, mid)) => match parse::clientid(mid) {
                Ok((src, mid)) => match parse::number(mid) {
                    Ok((workproof, rest)) => reads(
                        parse::sequence_header(b),
                        (seqid, src, workproof),
                        rest,
                    ),
                    Err(e) => fails(parse::sequence_header(b), e),
                },
                Err(e) => fails(parse::sequence_header(b), e),
            },
            Err(e) => fails(parse::sequence_header(b), e),
        },
{
}

} // verus!
