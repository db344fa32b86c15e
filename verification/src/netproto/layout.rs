//! Which bytes stand where in a message.
use super::wire;
use crate::endian;
use crate::messages::{
    AuthMessageView, ClientError, ClientId, ClientMessageView, ClientPollReplyView,
    ClientQueryView, ClientReplyView, DelayedError, FullyQualifiedMessageView, ServerId,
    ServerMessageView,
};
use crate::walk;
use vstd::arithmetic::power;
use vstd::prelude::*;
use vstd::utf8;

verus! {

/// The bytes of a number: itself below 251, and otherwise a marker for the
/// count of its digits to the base 256, which follow with the least significant
/// one first.
pub proof fn law_number(m: u128)
    ensures
        m <= 250 ==> wire::number(m) == seq![m as u8],
        m >= 251 ==> {
            let (marker, len) = if m <= 0xffff {
                (251u8, 2int)
            } else if m <= 0xffff_ffff {
                (252u8, 4int)
            } else if m <= 0xffff_ffff_ffff_ffff {
                (253u8, 8int)
            } else {
                (254u8, 16int)
            };
            &&& wire::number(m).len() == 1 + len
            &&& wire::number(m)[0] == marker
            &&& forall|i: int|
                1 <= i <= len ==> #[trigger] wire::number(m)[i] == (m as int / power::pow(
                    256,
                    (i - 1) as nat,
                )) % 256
        },
{
    if m >= 251 {
        let len: nat = if m <= 0xffff {
            2
        } else if m <= 0xffff_ffff {
            4
        } else if m <= 0xffff_ffff_ffff_ffff {
            8
        } else {
            16
        };
        endian::lemma_le_len(m as nat, len);
        assert forall|i: int| 1 <= i <= len implies #[trigger] wire::number(m)[i] == (m as int
            / power::pow(256, (i - 1) as nat)) % 256 by {
            endian::law_le_digit(m as nat, len, i - 1);
            assert(wire::number(m)[i] == endian::le_bytes(m as nat, len)[i - 1]);
        }
    }
}

/// The bytes of an identifier: their count, which is 16, and the digits of its
/// number to the base 256, with the most significant one first.
pub proof fn law_identifier(id: u128)
    ensures
        wire::uuid(id).len() == 17,
        wire::uuid(id)[0] == 16,
        forall|i: int|
            1 <= i <= 16 ==> #[trigger] wire::uuid(id)[i] == (id as int / power::pow(
                256,
                (16 - i) as nat,
            )) % 256,
        wire::clientid(ClientId(id)) == wire::uuid(id),
        wire::serverid(ServerId(id)) == wire::uuid(id),
{
    let digits = endian::le_bytes(id as nat, 16);
    endian::lemma_le_len(id as nat, 16);
    assert forall|i: int| 1 <= i <= 16 implies #[trigger] wire::uuid(id)[i] == (id as int
        / power::pow(256, (16 - i) as nat)) % 256 by {
        endian::law_le_digit(id as nat, 16, 16 - i);
        assert(wire::uuid(id)[i] == digits.reverse()[i - 1]);
    }
}

/// The bytes of a text: the count of its UTF-8 bytes, and these.
pub proof fn law_string(text: Seq<char>)
    ensures
        wire::string(text) == wire::number(utf8::encode_utf8(text).len() as u128)
            + utf8::encode_utf8(text),
{
}

/// The bytes of an authentication message: 0, 1 or 2 for its variant, the
/// identifier if it has one, and its array as it is behind the count of its
/// bytes.
pub proof fn law_auth(user: ClientId, server: ServerId, nonce: Seq<u8>, response: Seq<u8>)
    requires
        nonce.len() == 8,
        response.len() == 16,
    ensures
        wire::auth(AuthMessageView::Hello { user, nonce }) == seq![0u8] + wire::uuid(user.0)
            + seq![8u8] + nonce,
        wire::auth(AuthMessageView::Nonce { server, nonce }) == seq![1u8] + wire::uuid(server.0)
            + seq![8u8] + nonce,
        wire::auth(AuthMessageView::Auth { response }) == seq![2u8] + seq![16u8] + response,
{
    assert(wire::auth(AuthMessageView::Hello { user, nonce }) =~= seq![0u8] + wire::uuid(user.0)
        + seq![8u8] + nonce);
    assert(wire::auth(AuthMessageView::Nonce { server, nonce }) =~= seq![1u8] + wire::uuid(
        server.0,
    ) + seq![8u8] + nonce);
    assert(wire::auth(AuthMessageView::Auth { response }) =~= seq![2u8] + seq![16u8] + response);
}

/// A further identifier of a client is written behind the others.
pub proof fn law_client_ids(ids: Seq<ClientId>, next: ClientId)
    ensures
        wire::client_ids(seq![]) == Seq::<u8>::empty(),
        wire::client_ids(ids.push(next)) == wire::client_ids(ids) + wire::uuid(next.0),
    decreases ids.len(),
{
    let all = ids.push(next);
    if ids.len() == 0 {
        assert(all.drop_first() =~= seq![]);
        assert(wire::client_ids(all.drop_first()) =~= Seq::<u8>::empty());
        assert(wire::client_ids(all) =~= wire::client_ids(ids) + wire::uuid(next.0));
    } else {
        law_client_ids(ids.drop_first(), next);
        assert(all.drop_first() =~= ids.drop_first().push(next));
        assert(wire::client_ids(all) =~= wire::client_ids(ids) + wire::uuid(next.0));
    }
}

/// A further identifier of a server is written behind the others.
pub proof fn law_server_ids(ids: Seq<ServerId>, next: ServerId)
    ensures
        wire::server_ids(seq![]) == Seq::<u8>::empty(),
        wire::server_ids(ids.push(next)) == wire::server_ids(ids) + wire::uuid(next.0),
    decreases ids.len(),
{
    let all = ids.push(next);
    if ids.len() == 0 {
        assert(all.drop_first() =~= seq![]);
        assert(wire::server_ids(all.drop_first()) =~= Seq::<u8>::empty());
        assert(wire::server_ids(all) =~= wire::server_ids(ids) + wire::uuid(next.0));
    } else {
        law_server_ids(ids.drop_first(), next);
        assert(all.drop_first() =~= ids.drop_first().push(next));
        assert(wire::server_ids(all) =~= wire::server_ids(ids) + wire::uuid(next.0));
    }
}

/// A further destination is written behind the others: the client, and then its
/// server.
pub proof fn law_destinations(dsts: Seq<(ClientId, ServerId)>, next: (ClientId, ServerId))
    ensures
        wire::destinations(seq![]) == Seq::<u8>::empty(),
        wire::destinations(dsts.push(next)) == wire::destinations(dsts) + wire::uuid(next.0.0)
            + wire::uuid(next.1.0),
    decreases dsts.len(),
{
    let all = dsts.push(next);
    if dsts.len() == 0 {
        assert(all.drop_first() =~= seq![]);
        assert(wire::destinations(all.drop_first()) =~= Seq::<u8>::empty());
        assert(wire::destinations(all) =~= wire::destinations(dsts) + wire::uuid(next.0.0)
            + wire::uuid(next.1.0));
    } else {
        law_destinations(dsts.drop_first(), next);
        assert(all.drop_first() =~= dsts.drop_first().push(next));
        assert(wire::destinations(all) =~= wire::destinations(dsts) + wire::uuid(next.0.0)
            + wire::uuid(next.1.0));
    }
}

/// A further user is written behind the others: the identifier, and then the
/// name.
pub proof fn law_entries(users: Seq<(u128, Seq<char>)>, next: (u128, Seq<char>))
    ensures
        wire::entries(seq![]) == Seq::<u8>::empty(),
        wire::entries(users.push(next)) == wire::entries(users) + wire::uuid(next.0)
            + wire::string(next.1),
    decreases users.len(),
{
    let all = users.push(next);
    if users.len() == 0 {
        assert(all.drop_first() =~= seq![]);
        assert(wire::entries(all.drop_first()) =~= Seq::<u8>::empty());
        assert(wire::entries(all) =~= wire::entries(users) + wire::uuid(next.0) + wire::string(
            next.1,
        ));
    } else {
        law_entries(users.drop_first(), next);
        assert(all.drop_first() =~= users.drop_first().push(next));
        assert(wire::entries(all) =~= wire::entries(users) + wire::uuid(next.0) + wire::string(
            next.1,
        ));
    }
}

/// The bytes of a client's message: 0, the destination and the text, or 1, the
/// count of the destinations, these and the text.
pub proof fn law_client(one: ClientId, several: Seq<ClientId>, content: Seq<char>)
    ensures
        wire::client(ClientMessageView::Text { dest: one, content }) == seq![0u8] + wire::uuid(
            one.0,
        ) + wire::string(content),
        wire::client(ClientMessageView::MText { dest: several, content }) == seq![1u8]
            + wire::number(several.len() as u128) + wire::client_ids(several) + wire::string(
            content,
        ),
{
}

/// The bytes of a list of users: their count, and each of them once, in
/// whatever order.
pub proof fn law_userlist(users: Map<u128, Seq<char>>, bytes: Seq<u8>)
    ensures
        wire::is_userlist(users, bytes) <==> exists|order: Seq<(u128, Seq<char>)>| #[trigger]
            walk::lists(order, users) && bytes == wire::number(order.len() as u128)
                + wire::entries(order),
{
    if wire::is_userlist(users, bytes) {
        let order = choose|order: Seq<(u128, Seq<char>)>| #[trigger]
            walk::lists(order, users) && bytes == wire::user_entries(order);
        assert(walk::lists(order, users));
    }
    if exists|order: Seq<(u128, Seq<char>)>| #[trigger]
        walk::lists(order, users) && bytes == wire::number(order.len() as u128) + wire::entries(
            order,
        ) {
        let order = choose|order: Seq<(u128, Seq<char>)>| #[trigger]
            walk::lists(order, users) && bytes == wire::number(order.len() as u128)
                + wire::entries(order);
        assert(bytes == wire::user_entries(order));
    }
}

/// The bytes of an announcement: 0, the count of the servers on its route,
/// these, and the list of its clients.
pub proof fn law_announce(route: Seq<ServerId>, clients: Map<u128, Seq<char>>, bytes: Seq<u8>)
    ensures
        wire::is_server(ServerMessageView::Announce { route, clients }, bytes) <==> exists|
            users: Seq<u8>,
        | #[trigger]
            wire::is_userlist(clients, users) && bytes == seq![0u8] + wire::number(
                route.len() as u128,
            ) + wire::server_ids(route) + users,
{
    if wire::is_server(ServerMessageView::Announce { route, clients }, bytes) {
        let order = choose|order: Seq<(u128, Seq<char>)>| #[trigger]
            walk::lists(order, clients) && bytes == wire::announced(route) + wire::user_entries(
                order,
            );
        assert(wire::is_userlist(clients, wire::user_entries(order)));
        assert(bytes =~= seq![0u8] + wire::number(route.len() as u128) + wire::server_ids(route)
            + wire::user_entries(order));
    }
    if exists|users: Seq<u8>| #[trigger]
        wire::is_userlist(clients, users) && bytes == seq![0u8] + wire::number(
            route.len() as u128,
        ) + wire::server_ids(route) + users {
        let users = choose|users: Seq<u8>| #[trigger]
            wire::is_userlist(clients, users) && bytes == seq![0u8] + wire::number(
                route.len() as u128,
            ) + wire::server_ids(route) + users;
        let order = choose|order: Seq<(u128, Seq<char>)>| #[trigger]
            walk::lists(order, clients) && users == wire::user_entries(order);
        assert(wire::announced(route) =~= seq![0u8] + wire::number(route.len() as u128)
            + wire::server_ids(route));
        assert(walk::lists(order, clients) && bytes == wire::announced(route)
            + wire::user_entries(order));
        assert(wire::is_announce(route, clients, bytes));
    }
}

/// The bytes of a text between servers: 1, who sent it, the server of that one,
/// the count of the destinations, these, and the text.
pub proof fn law_message(msg: FullyQualifiedMessageView, bytes: Seq<u8>)
    ensures
        wire::is_server(ServerMessageView::Message(msg), bytes) <==> bytes == seq![1u8]
            + wire::uuid(msg.src.0) + wire::uuid(msg.srcsrv.0) + wire::number(
            msg.dsts.len() as u128,
        ) + wire::destinations(msg.dsts) + wire::string(msg.content),
{
    assert(wire::number(1) + wire::qualified(msg) =~= seq![1u8] + wire::uuid(msg.src.0)
        + wire::uuid(msg.srcsrv.0) + wire::number(msg.dsts.len() as u128) + wire::destinations(
        msg.dsts,
    ) + wire::string(msg.content));
}

/// The bytes of a reply to a client: 0, 1, 2 or 3 for its variant; for an error
/// its number from 0 to 4, and the client whose mailbox is full; for a transfer
/// the server and the message.
pub proof fn law_client_reply(id: ClientId, server: ServerId, msg: ServerMessageView, bytes: Seq<u8>)
    ensures
        wire::is_client_reply(ClientReplyView::Delivered, bytes) <==> bytes == seq![0u8],
        wire::is_client_reply(ClientReplyView::Error(ClientError::WorkProofError), bytes)
            <==> bytes == seq![1u8, 0u8],
        wire::is_client_reply(ClientReplyView::Error(ClientError::UnknownClient), bytes)
            <==> bytes == seq![1u8, 1u8],
        wire::is_client_reply(ClientReplyView::Error(ClientError::SequenceError), bytes)
            <==> bytes == seq![1u8, 2u8],
        wire::is_client_reply(ClientReplyView::Error(ClientError::BoxFull(id)), bytes) <==> bytes
            == seq![1u8, 3u8] + wire::uuid(id.0),
        wire::is_client_reply(ClientReplyView::Error(ClientError::InternalError), bytes)
            <==> bytes == seq![1u8, 4u8],
        wire::is_client_reply(ClientReplyView::Delayed, bytes) <==> bytes == seq![2u8],
        wire::is_client_reply(ClientReplyView::Transfer(server, msg), bytes) <==> exists|
            inner: Seq<u8>,
        | #[trigger]
            wire::is_server(msg, inner) && bytes == seq![3u8] + wire::uuid(server.0) + inner,
{
    assert(wire::number(1) + wire::number(0) =~= seq![1u8, 0u8]);
    assert(wire::number(1) + wire::number(1) =~= seq![1u8, 1u8]);
    assert(wire::number(1) + wire::number(2) =~= seq![1u8, 2u8]);
    assert(wire::number(1) + (wire::number(3) + wire::uuid(id.0)) =~= seq![1u8, 3u8] + wire::uuid(
        id.0,
    ));
    assert(wire::number(1) + wire::number(4) =~= seq![1u8, 4u8]);
}

/// The bytes of replies to a client: those of one reply after the other.
pub proof fn law_client_replies(
    m: Seq<ClientReplyView>,
    bytes: Seq<u8>,
    next: ClientReplyView,
    more: Seq<u8>,
)
    ensures
        wire::is_client_replies(seq![], bytes) <==> bytes == Seq::<u8>::empty(),
        wire::is_client_replies(m, bytes) && wire::is_client_reply(next, more)
            ==> wire::is_client_replies(m.push(next), bytes + more),
        wire::is_client_replies(m.push(next), bytes) ==> exists|front: Seq<u8>, back: Seq<u8>|
            bytes == front + back && #[trigger] wire::is_client_replies(m, front)
                && #[trigger] wire::is_client_reply(next, back),
{
    if wire::is_client_replies(seq![], bytes) {
        let parts = choose|parts: Seq<Seq<u8>>| #[trigger]
            wire::are_client_replies(seq![], parts) && bytes == parts.flatten();
        assert(parts =~= seq![]);
        assert(parts.flatten() =~= Seq::<u8>::empty());
    }
    if bytes == Seq::<u8>::empty() {
        let parts: Seq<Seq<u8>> = seq![];
        assert(wire::are_client_replies(seq![], parts));
        assert(parts.flatten() =~= bytes);
    }
    if wire::is_client_replies(m, bytes) && wire::is_client_reply(next, more) {
        wire::lemma_client_replies_push(m, bytes, next, more);
    }
    if wire::is_client_replies(m.push(next), bytes) {
        let parts = choose|parts: Seq<Seq<u8>>| #[trigger]
            wire::are_client_replies(m.push(next), parts) && bytes == parts.flatten();
        let front = parts.drop_last();
        parts.lemma_flatten_and_flatten_alt_are_equivalent();
        front.lemma_flatten_and_flatten_alt_are_equivalent();
        assert forall|i: int| 0 <= i < m.len() implies wire::is_client_reply(
            m[i],
            #[trigger] front[i],
        ) by {
            assert(wire::is_client_reply(m.push(next)[i], parts[i]));
        }
        assert(wire::are_client_replies(m, front));
        assert(wire::is_client_reply(m.push(next)[m.len() as int], parts[m.len() as int]));
        assert(bytes == front.flatten() + parts.last());
        assert(wire::is_client_replies(m, front.flatten()));
        assert(wire::is_client_reply(next, parts.last()));
    }
}

/// The bytes of the answer to a client that polls: 0, who sent the text and the
/// text; or 1, 0 and the client that nobody knows; or 2.
pub proof fn law_client_poll_reply(src: ClientId, content: Seq<char>, id: ClientId)
    ensures
        wire::client_poll_reply(ClientPollReplyView::Message { src, content }) == seq![0u8]
            + wire::uuid(src.0) + wire::string(content),
        wire::client_poll_reply(
            ClientPollReplyView::DelayedError(DelayedError::UnknownRecipient(id)),
        ) == seq![1u8, 0u8] + wire::uuid(id.0),
        wire::client_poll_reply(ClientPollReplyView::Nothing) == seq![2u8],
{
    assert(wire::number(1) + wire::number(0) =~= seq![1u8, 0u8]);
}

/// The bytes of a client's query: 0 and the name, 1 and the message, 2 for a
/// poll, or 3 for the list of users.
pub proof fn law_client_query(name: Seq<char>, msg: ClientMessageView)
    ensures
        wire::client_query(ClientQueryView::Register(name)) == seq![0u8] + wire::string(name),
        wire::client_query(ClientQueryView::Message(msg)) == seq![1u8] + wire::client(msg),
        wire::client_query(ClientQueryView::Poll) == seq![2u8],
        wire::client_query(ClientQueryView::ListUsers) == seq![3u8],
{
}

/// The bytes before the content of a request: its number, its client, and its
/// proof of work.
pub proof fn law_sequence_header(seqid: u128, src: ClientId, workproof: u128)
    ensures
        wire::sequence_header(seqid, src, workproof) == wire::number(seqid) + wire::uuid(src.0)
            + wire::number(workproof),
{
}

/// Bytes that were added stand behind those that were there.
pub proof fn law_added(before: Seq<u8>, after: Seq<u8>)
    ensures
        wire::extends(before, after) <==> exists|more: Seq<u8>| after == #[trigger] (before + more),
        wire::extends(before, after) ==> after == before + wire::added(before, after),
{
    if wire::extends(before, after) {
        assert(after =~= before + wire::added(before, after));
    }
    if exists|more: Seq<u8>| after == #[trigger] (before + more) {
        let more = choose|more: Seq<u8>| after == #[trigger] (before + more);
        assert((before + more).take(before.len() as int) =~= before);
    }
}

} // verus!
