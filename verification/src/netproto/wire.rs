//! The bytes of each message.
//!
//! A number takes as few bytes as its size allows. Identifiers, arrays, texts
//! and lists carry their length in front, as such a number; so does an enum the
//! index of its variant. The fields of a message follow each other in order.
use crate::endian;
use crate::messages::{
    AuthMessageView, ClientError, ClientId, ClientMessageView, ClientPollReplyView,
    ClientQueryView, ClientReplyView, DelayedError, FullyQualifiedMessageView, ServerId,
    ServerMessageView,
};
use crate::walk;
use vstd::prelude::*;
use vstd::utf8;

verus! {

/// A number: one byte below 251, and otherwise a marker followed by the
/// number in two, four, eight or sixteen bytes, least significant first.
pub open spec fn number(m: u128) -> Seq<u8> {
    if m < 251 {
        seq![m as u8]
    } else if m < 0x1_0000 {
        seq![251u8] + endian::le_bytes(m as nat, 2)
    } else if m < 0x1_0000_0000 {
        seq![252u8] + endian::le_bytes(m as nat, 4)
    } else if m < 0x1_0000_0000_0000_0000 {
        seq![253u8] + endian::le_bytes(m as nat, 8)
    } else {
        seq![254u8] + endian::le_bytes(m as nat, 16)
    }
}

/// Bytes after their count.
pub open spec fn counted(bytes: Seq<u8>) -> Seq<u8> {
    number(bytes.len() as u128) + bytes
}

/// The sixteen bytes of an identifier, counted.
pub open spec fn uuid(id: u128) -> Seq<u8> {
    counted(endian::be_bytes(id as nat, 16))
}

/// A client's identifier.
pub open spec fn clientid(id: ClientId) -> Seq<u8> {
    uuid(id.0)
}

/// A server's identifier.
pub open spec fn serverid(id: ServerId) -> Seq<u8> {
    uuid(id.0)
}

/// The UTF-8 bytes of a text, counted.
pub open spec fn string(text: Seq<char>) -> Seq<u8> {
    counted(utf8::encode_utf8(text))
}

/// An authentication message.
pub open spec fn auth(m: AuthMessageView) -> Seq<u8> {
    match m {
        AuthMessageView::Hello { user, nonce } => number(0) + clientid(user) + counted(nonce),
        AuthMessageView::Nonce { server, nonce } => number(1) + serverid(server) + counted(nonce),
        AuthMessageView::Auth { response } => number(2) + counted(response),
    }
}

/// Identifiers of clients, one after the other.
pub open spec fn client_ids(ids: Seq<ClientId>) -> Seq<u8>
    decreases ids.len(),
{
    if ids.len() == 0 {
        seq![]
    } else {
        clientid(ids[0]) + client_ids(ids.drop_first())
    }
}

/// Identifiers of servers, one after the other.
pub open spec fn server_ids(ids: Seq<ServerId>) -> Seq<u8>
    decreases ids.len(),
{
    if ids.len() == 0 {
        seq![]
    } else {
        serverid(ids[0]) + server_ids(ids.drop_first())
    }
}

/// Clients with their servers, one after the other.
pub open spec fn destinations(dsts: Seq<(ClientId, ServerId)>) -> Seq<u8>
    decreases dsts.len(),
{
    if dsts.len() == 0 {
        seq![]
    } else {
        clientid(dsts[0].0) + serverid(dsts[0].1) + destinations(dsts.drop_first())
    }
}

/// Users with their names, one after the other.
pub open spec fn entries(users: Seq<(u128, Seq<char>)>) -> Seq<u8>
    decreases users.len(),
{
    if users.len() == 0 {
        seq![]
    } else {
        uuid(users[0].0) + string(users[0].1) + entries(users.drop_first())
    }
}

/// Users with their names, counted.
pub open spec fn user_entries(users: Seq<(u128, Seq<char>)>) -> Seq<u8> {
    number(users.len() as u128) + entries(users)
}

/// Whether `bytes` hold the users of a map, in whatever order.
pub open spec fn is_userlist(users: Map<u128, Seq<char>>, bytes: Seq<u8>) -> bool {
    exists|order: Seq<(u128, Seq<char>)>|
        #[trigger] walk::lists(order, users) && bytes == user_entries(order)
}

/// A fully qualified message.
pub open spec fn qualified(m: FullyQualifiedMessageView) -> Seq<u8> {
    clientid(m.src) + serverid(m.srcsrv) + number(m.dsts.len() as u128) + destinations(m.dsts)
        + string(m.content)
}

/// An announcement up to its users.
pub open spec fn announced(route: Seq<ServerId>) -> Seq<u8> {
    number(0) + number(route.len() as u128) + server_ids(route)
}

/// Whether `bytes` hold an announcement, with its users in whatever order.
pub open spec fn is_announce(
    route: Seq<ServerId>,
    clients: Map<u128, Seq<char>>,
    bytes: Seq<u8>,
) -> bool {
    exists|order: Seq<(u128, Seq<char>)>|
        #[trigger] walk::lists(order, clients) && bytes == announced(route) + user_entries(order)
}

/// Whether `bytes` hold a server's message. The users of an announcement may
/// come in any order.
pub open spec fn is_server(m: ServerMessageView, bytes: Seq<u8>) -> bool {
    match m {
        ServerMessageView::Announce { route, clients } => is_announce(route, clients, bytes),
        ServerMessageView::Message(msg) => bytes == number(1) + qualified(msg),
    }
}

/// A client's message.
pub open spec fn client(m: ClientMessageView) -> Seq<u8> {
    match m {
        ClientMessageView::Text { dest, content } => number(0) + clientid(dest) + string(content),
        ClientMessageView::MText { dest, content } => number(1) + number(dest.len() as u128)
            + client_ids(dest) + string(content),
    }
}

/// The reason of a refusal.
pub open spec fn client_error(err: ClientError) -> Seq<u8> {
    match err {
        ClientError::WorkProofError => number(0),
        ClientError::UnknownClient => number(1),
        ClientError::SequenceError => number(2),
        ClientError::BoxFull(id) => number(3) + clientid(id),
        ClientError::InternalError => number(4),
    }
}

/// Whether `bytes` hold a reply to a client.
pub open spec fn is_client_reply(m: ClientReplyView, bytes: Seq<u8>) -> bool {
    match m {
        ClientReplyView::Delivered => bytes == number(0),
        ClientReplyView::Error(err) => bytes == number(1) + client_error(err),
        ClientReplyView::Delayed => bytes == number(2),
        ClientReplyView::Transfer(id, msg) => exists|inner: Seq<u8>|
            #[trigger] is_server(msg, inner) && bytes == number(3) + serverid(id) + inner,
    }
}

/// Whether `parts` hold replies to a client, each its own.
pub open spec fn are_client_replies(m: Seq<ClientReplyView>, parts: Seq<Seq<u8>>) -> bool {
    &&& parts.len() == m.len()
    &&& forall|i: int| 0 <= i < m.len() ==> is_client_reply(m[i], #[trigger] parts[i])
}

/// Whether `bytes` hold replies to a client, one after the other. Their count
/// is not written.
pub open spec fn is_client_replies(m: Seq<ClientReplyView>, bytes: Seq<u8>) -> bool {
    exists|parts: Seq<Seq<u8>>| #[trigger] are_client_replies(m, parts) && bytes == parts.flatten()
}

/// A reply behind other replies.
pub proof fn lemma_client_replies_push(
    m: Seq<ClientReplyView>,
    bytes: Seq<u8>,
    next: ClientReplyView,
    more: Seq<u8>,
)
    requires
        is_client_replies(m, bytes),
        is_client_reply(next, more),
    ensures
        is_client_replies(m.push(next), bytes + more),
{
    let parts = choose|parts: Seq<Seq<u8>>| #[trigger]
        are_client_replies(m, parts) && bytes == parts.flatten();
    let longer = parts.push(more);
    parts.lemma_flatten_and_flatten_alt_are_equivalent();
    longer.lemma_flatten_and_flatten_alt_are_equivalent();
    assert(longer.drop_last() =~= parts);
    assert(are_client_replies(m.push(next), longer));
}

/// The answer to a client that polls.
pub open spec fn client_poll_reply(m: ClientPollReplyView) -> Seq<u8> {
    match m {
        ClientPollReplyView::Message { src, content } => number(0) + clientid(src) + string(
            content,
        ),
        ClientPollReplyView::DelayedError(DelayedError::UnknownRecipient(id)) => number(1)
            + number(0) + clientid(id),
        ClientPollReplyView::Nothing => number(2),
    }
}

/// A client's query.
pub open spec fn client_query(m: ClientQueryView) -> Seq<u8> {
    match m {
        ClientQueryView::Register(name) => number(0) + string(name),
        ClientQueryView::Message(msg) => number(1) + client(msg),
        ClientQueryView::Poll => number(2),
        ClientQueryView::ListUsers => number(3),
    }
}

/// What stands before the content of a sequenced request.
pub open spec fn sequence_header(seqid: u128, src: ClientId, workproof: u128) -> Seq<u8> {
    number(seqid) + clientid(src) + number(workproof)
}

/// Whether `after` is `before` with bytes added at its end.
pub open spec fn extends(before: Seq<u8>, after: Seq<u8>) -> bool {
    before.len() <= after.len() && after.take(before.len() as int) == before
}

/// The bytes that `after` has behind `before`.
pub open spec fn added(before: Seq<u8>, after: Seq<u8>) -> Seq<u8> {
    after.skip(before.len() as int)
}

} // verus!
