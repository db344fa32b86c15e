//! What is written can be read back, whatever bytes follow it.
use super::decode::DecodeError;
use super::{parse, wire};
use crate::endian;
use crate::messages::{
    AuthMessageView, ClientError, ClientId, ClientMessageView, ClientPollReplyView,
    ClientQueryView, ClientReplyView, FullyQualifiedMessageView, ServerId, ServerMessageView,
};
use crate::walk;
use vstd::prelude::*;
use vstd::utf8;

verus! {

/// Whether the bytes of a text can be counted.
pub open spec fn fits(text: Seq<char>) -> bool {
    utf8::encode_utf8(text).len() <= usize::MAX
}

/// Whether users can be counted, and so can the bytes of each name.
pub open spec fn users_fit(users: Map<u128, Seq<char>>) -> bool {
    &&& users.len() <= usize::MAX
    &&& forall|k: u128| #[trigger] users.contains_key(k) ==> fits(users[k])
}

/// A number that was written is read back.
pub proof fn law_number(m: u128, rest: Seq<u8>)
    ensures
        parse::number(wire::number(m) + rest) == Ok::<(u128, Seq<u8>), DecodeError>((m, rest)),
{
    let b = wire::number(m) + rest;
    endian::lemma_byte_limits();
    if m < 251 {
        assert(b.skip(1) =~= rest);
    } else {
        let len: nat = if m < 0x1_0000 {
            2
        } else if m < 0x1_0000_0000 {
            4
        } else if m < 0x1_0000_0000_0000_0000 {
            8
        } else {
            16
        };
        endian::lemma_le_value_of_bytes(m as nat, len);
        assert(b.skip(1) =~= endian::le_bytes(m as nat, len) + rest);
        assert(b.skip(1).take(len as int) =~= endian::le_bytes(m as nat, len));
        assert(b.skip(1).skip(len as int) =~= rest);
    }
}

/// A number is written in as few bytes as any that are read as this number.
pub proof fn law_number_is_shortest(b: Seq<u8>)
    ensures
        parse::number(b) matches Ok((m, rest)) ==> wire::number(m).len() + rest.len() <= b.len(),
{
    if b.len() >= 1 {
        let rest = b.skip(1);
        endian::lemma_byte_limits();
        if let Ok((m, after)) = parse::number(b) {
            endian::lemma_le_value_of_bytes(m as nat, 16);
            if m < 0x1_0000_0000_0000_0000 {
                endian::lemma_le_value_of_bytes(m as nat, 8);
            }
            if m < 0x1_0000_0000 {
                endian::lemma_le_value_of_bytes(m as nat, 4);
            }
            if m < 0x1_0000 {
                endian::lemma_le_value_of_bytes(m as nat, 2);
            }
            if b[0] == 251 {
                endian::lemma_le_bytes_of_value(rest.take(2));
            } else if b[0] == 252 {
                endian::lemma_le_bytes_of_value(rest.take(4));
            } else if b[0] == 253 {
                endian::lemma_le_bytes_of_value(rest.take(8));
            } else if b[0] == 254 {
                endian::lemma_le_bytes_of_value(rest.take(16));
            }
        }
    }
}

/// A count that was written is read back.
proof fn lemma_size(m: u128, rest: Seq<u8>)
    requires
        m <= usize::MAX,
    ensures
        parse::size(wire::number(m) + rest) == Ok::<(usize, Seq<u8>), DecodeError>(
            (m as usize, rest),
        ),
{
    law_number(m, rest);
}

/// Counted bytes that were written are read back.
proof fn lemma_counted(bytes: Seq<u8>, rest: Seq<u8>)
    requires
        bytes.len() <= usize::MAX,
    ensures
        parse::counted(wire::counted(bytes) + rest) == Ok::<(Seq<u8>, Seq<u8>), DecodeError>(
            (bytes, rest),
        ),
{
    let n = bytes.len() as u128;
    assert(wire::counted(bytes) + rest =~= wire::number(n) + (bytes + rest));
    lemma_size(n, bytes + rest);
    assert((bytes + rest).take(bytes.len() as int) =~= bytes);
    assert((bytes + rest).skip(bytes.len() as int) =~= rest);
}

/// An identifier that was written is read back.
proof fn lemma_uuid(id: u128, rest: Seq<u8>)
    ensures
        parse::uuid(wire::uuid(id) + rest) == Ok::<(u128, Seq<u8>), DecodeError>((id, rest)),
{
    endian::lemma_byte_limits();
    endian::lemma_be_value_of_bytes(id as nat, 16);
    lemma_counted(endian::be_bytes(id as nat, 16), rest);
}

/// A client's identifier that was written is read back.
pub proof fn law_clientid(id: ClientId, rest: Seq<u8>)
    ensures
        parse::clientid(wire::clientid(id) + rest) == Ok::<(ClientId, Seq<u8>), DecodeError>(
            (id, rest),
        ),
{
    lemma_uuid(id.0, rest);
}

/// A server's identifier that was written is read back.
pub proof fn law_serverid(id: ServerId, rest: Seq<u8>)
    ensures
        parse::serverid(wire::serverid(id) + rest) == Ok::<(ServerId, Seq<u8>), DecodeError>(
            (id, rest),
        ),
{
    lemma_uuid(id.0, rest);
}

/// A text that was written is read back.
pub proof fn law_string(text: Seq<char>, rest: Seq<u8>)
    requires
        fits(text),
    ensures
        parse::string(wire::string(text) + rest) == Ok::<(Seq<char>, Seq<u8>), DecodeError>(
            (text, rest),
        ),
{
    lemma_counted(utf8::encode_utf8(text), rest);
    vstd::utf8::encode_utf8_valid_utf8(text);
    vstd::utf8::encode_utf8_decode_utf8(text);
}

/// Whether the arrays of an authentication message have their length.
pub open spec fn auth_fits(m: AuthMessageView) -> bool {
    match m {
        AuthMessageView::Hello { nonce, .. } => nonce.len() == 8,
        AuthMessageView::Nonce { nonce, .. } => nonce.len() == 8,
        AuthMessageView::Auth { response } => response.len() == 16,
    }
}

/// An authentication message that was written is read back.
pub proof fn law_auth(m: AuthMessageView, rest: Seq<u8>)
    requires
        auth_fits(m),
    ensures
        parse::auth(wire::auth(m) + rest) == Ok::<(AuthMessageView, Seq<u8>), DecodeError>(
            (m, rest),
        ),
{
    match m {
        AuthMessageView::Hello { user, nonce } => {
            let array = wire::counted(nonce);
            lemma_join3(wire::number(0), wire::clientid(user), array, rest);
            lemma_tag(0, wire::clientid(user) + (array + rest));
            law_clientid(user, array + rest);
            lemma_counted(nonce, rest);
        },
        AuthMessageView::Nonce { server, nonce } => {
            let array = wire::counted(nonce);
            lemma_join3(wire::number(1), wire::serverid(server), array, rest);
            lemma_tag(1, wire::serverid(server) + (array + rest));
            law_serverid(server, array + rest);
            lemma_counted(nonce, rest);
        },
        AuthMessageView::Auth { response } => {
            lemma_join(wire::number(2), wire::counted(response), rest);
            lemma_tag(2, wire::counted(response) + rest);
            lemma_counted(response, rest);
        },
    }
}

/// A tag that was written as a number is read back as a byte.
proof fn lemma_tag(tag: u8, body: Seq<u8>)
    requires
        tag < 251,
    ensures
        parse::byte(wire::number(tag as u128) + body) == Ok::<(u8, Seq<u8>), DecodeError>(
            (tag, body),
        ),
{
    assert((wire::number(tag as u128) + body).skip(1) =~= body);
}

/// Putting together what stands one after the other.
proof fn lemma_join(a: Seq<u8>, b: Seq<u8>, c: Seq<u8>)
    ensures
        (a + b) + c == a + (b + c),
{
    assert((a + b) + c =~= a + (b + c));
}

/// The same for three parts.
proof fn lemma_join3(a: Seq<u8>, b: Seq<u8>, c: Seq<u8>, d: Seq<u8>)
    ensures
        a + b + c + d == a + (b + (c + d)),
{
    assert(a + b + c + d =~= a + (b + (c + d)));
}

/// The same for four parts.
proof fn lemma_join4(a: Seq<u8>, b: Seq<u8>, c: Seq<u8>, d: Seq<u8>, e: Seq<u8>)
    ensures
        a + b + c + d + e == a + (b + (c + (d + e))),
{
    assert(a + b + c + d + e =~= a + (b + (c + (d + e))));
}

/// The same for five parts.
proof fn lemma_join5(a: Seq<u8>, b: Seq<u8>, c: Seq<u8>, d: Seq<u8>, e: Seq<u8>, f: Seq<u8>)
    ensures
        a + b + c + d + e + f == a + (b + (c + (d + (e + f)))),
{
    assert(a + b + c + d + e + f =~= a + (b + (c + (d + (e + f)))));
}

/// Moving the first of some items to the end of others.
proof fn lemma_move<T>(seen: Seq<T>, items: Seq<T>)
    requires
        items.len() > 0,
    ensures
        seen.push(items[0]) + items.drop_first() == seen + items,
{
    assert(seen.push(items[0]) + items.drop_first() =~= seen + items);
}

/// Identifiers of clients that were written are read back.
proof fn lemma_client_ids(ids: Seq<ClientId>, seen: Seq<ClientId>, rest: Seq<u8>)
    ensures
        parse::client_ids(wire::client_ids(ids) + rest, ids.len(), seen) == Ok::<
            (Seq<ClientId>, Seq<u8>),
            DecodeError,
        >((seen + ids, rest)),
    decreases ids.len(),
{
    if ids.len() == 0 {
        assert(wire::client_ids(ids) + rest =~= rest);
        assert(seen + ids =~= seen);
    } else {
        let others = wire::client_ids(ids.drop_first()) + rest;
        lemma_join(wire::clientid(ids[0]), wire::client_ids(ids.drop_first()), rest);
        law_clientid(ids[0], others);
        lemma_client_ids(ids.drop_first(), seen.push(ids[0]), rest);
        lemma_move(seen, ids);
    }
}

/// Identifiers of servers that were written are read back.
proof fn lemma_server_ids(ids: Seq<ServerId>, seen: Seq<ServerId>, rest: Seq<u8>)
    ensures
        parse::server_ids(wire::server_ids(ids) + rest, ids.len(), seen) == Ok::<
            (Seq<ServerId>, Seq<u8>),
            DecodeError,
        >((seen + ids, rest)),
    decreases ids.len(),
{
    if ids.len() == 0 {
        assert(wire::server_ids(ids) + rest =~= rest);
        assert(seen + ids =~= seen);
    } else {
        let others = wire::server_ids(ids.drop_first()) + rest;
        lemma_join(wire::serverid(ids[0]), wire::server_ids(ids.drop_first()), rest);
        law_serverid(ids[0], others);
        lemma_server_ids(ids.drop_first(), seen.push(ids[0]), rest);
        lemma_move(seen, ids);
    }
}

/// A client with its server that was written is read back.
proof fn lemma_destination(dst: (ClientId, ServerId), rest: Seq<u8>)
    ensures
        parse::destination(wire::clientid(dst.0) + (wire::serverid(dst.1) + rest)) == Ok::<
            ((ClientId, ServerId), Seq<u8>),
            DecodeError,
        >((dst, rest)),
{
    law_clientid(dst.0, wire::serverid(dst.1) + rest);
    law_serverid(dst.1, rest);
}

/// Clients with their servers that were written are read back.
proof fn lemma_destinations(
    dsts: Seq<(ClientId, ServerId)>,
    seen: Seq<(ClientId, ServerId)>,
    rest: Seq<u8>,
)
    ensures
        parse::destinations(wire::destinations(dsts) + rest, dsts.len(), seen) == Ok::<
            (Seq<(ClientId, ServerId)>, Seq<u8>),
            DecodeError,
        >((seen + dsts, rest)),
    decreases dsts.len(),
{
    if dsts.len() == 0 {
        assert(wire::destinations(dsts) + rest =~= rest);
        assert(seen + dsts =~= seen);
    } else {
        let others = wire::destinations(dsts.drop_first()) + rest;
        lemma_join3(
            wire::clientid(dsts[0].0),
            wire::serverid(dsts[0].1),
            wire::destinations(dsts.drop_first()),
            rest,
        );
        lemma_destination(dsts[0], others);
        lemma_destinations(dsts.drop_first(), seen.push(dsts[0]), rest);
        lemma_move(seen, dsts);
    }
}

/// A text for one client that was written is read back.
proof fn lemma_text(dest: ClientId, content: Seq<char>, rest: Seq<u8>)
    requires
        fits(content),
    ensures
        ({
            let m = ClientMessageView::Text { dest, content };
            parse::client(wire::client(m) + rest) == Ok::<(ClientMessageView, Seq<u8>), DecodeError>(
                (m, rest),
            )
        }),
{
    let text = wire::string(content) + rest;
    lemma_join3(wire::number(0), wire::clientid(dest), wire::string(content), rest);
    lemma_tag(0, wire::clientid(dest) + text);
    law_clientid(dest, text);
    law_string(content, rest);
}

/// A text for several clients that was written is read back.
proof fn lemma_mtext(dest: Seq<ClientId>, content: Seq<char>, rest: Seq<u8>)
    requires
        fits(content),
        dest.len() <= usize::MAX,
    ensures
        ({
            let m = ClientMessageView::MText { dest, content };
            parse::client(wire::client(m) + rest) == Ok::<(ClientMessageView, Seq<u8>), DecodeError>(
                (m, rest),
            )
        }),
{
    let n = wire::number(dest.len() as u128);
    let ids = wire::client_ids(dest);
    let text = wire::string(content);
    lemma_join4(wire::number(1), n, ids, text, rest);
    lemma_tag(1, n + (ids + (text + rest)));
    lemma_size(dest.len() as u128, ids + (text + rest));
    lemma_client_ids(dest, seq![], text + rest);
    assert(Seq::<ClientId>::empty() + dest =~= dest);
    law_string(content, rest);
}

/// Whether the parts of a client's message can be counted.
pub open spec fn client_fits(m: ClientMessageView) -> bool {
    match m {
        ClientMessageView::Text { dest, content } => fits(content),
        ClientMessageView::MText { dest, content } => fits(content) && dest.len() <= usize::MAX,
    }
}

/// A client's message that was written is read back.
pub proof fn law_client(m: ClientMessageView, rest: Seq<u8>)
    requires
        client_fits(m),
    ensures
        parse::client(wire::client(m) + rest) == Ok::<(ClientMessageView, Seq<u8>), DecodeError>(
            (m, rest),
        ),
{
    match m {
        ClientMessageView::Text { dest, content } => lemma_text(dest, content, rest),
        ClientMessageView::MText { dest, content } => lemma_mtext(dest, content, rest),
    }
}

/// Users with their names that were written are read back.
proof fn lemma_users(
    order: Seq<(u128, Seq<char>)>,
    seen: Map<u128, Seq<char>>,
    rest: Seq<u8>,
)
    requires
        forall|i: int| 0 <= i < order.len() ==> fits((#[trigger] order[i]).1),
    ensures
        parse::users(wire::entries(order) + rest, order.len(), seen) == Ok::<
            (Map<u128, Seq<char>>, Seq<u8>),
            DecodeError,
        >((walk::inserted(seen, order), rest)),
    decreases order.len(),
{
    if order.len() == 0 {
        assert(wire::entries(order) + rest =~= rest);
    } else {
        let others = order.drop_first();
        let tail = wire::entries(others) + rest;
        let id = wire::uuid(order[0].0);
        let name = wire::string(order[0].1);
        lemma_join3(id, name, wire::entries(others), rest);
        lemma_uuid(order[0].0, name + tail);
        law_string(order[0].1, tail);
        assert forall|i: int| 0 <= i < others.len() implies fits((#[trigger] others[i]).1) by {
            assert(fits(order[i + 1].1));
        }
        lemma_users(others, seen.insert(order[0].0, order[0].1), rest);
        walk::lemma_inserted_first(seen, order);
    }
}

/// Users that were written in some order are read back.
proof fn lemma_user_entries(
    order: Seq<(u128, Seq<char>)>,
    users: Map<u128, Seq<char>>,
    rest: Seq<u8>,
)
    requires
        walk::lists(order, users),
        users_fit(users),
    ensures
        parse::userlist(wire::user_entries(order) + rest) == Ok::<
            (Map<u128, Seq<char>>, Seq<u8>),
            DecodeError,
        >((users, rest)),
{
    walk::law_inserted(Map::empty(), order, users);
    walk::law_len(order, users);
    assert(Map::empty().union_prefer_right(users) =~= users);
    let n = order.len() as u128;
    lemma_join(wire::number(n), wire::entries(order), rest);
    lemma_size(n, wire::entries(order) + rest);
    assert forall|i: int| 0 <= i < order.len() implies fits((#[trigger] order[i]).1) by {
        assert(users.contains_key(order[i].0));
    }
    lemma_users(order, Map::empty(), rest);
}

/// A map of users that was written, in whatever order, is read back.
pub proof fn law_userlist(users: Map<u128, Seq<char>>, bytes: Seq<u8>, rest: Seq<u8>)
    requires
        wire::is_userlist(users, bytes),
        users_fit(users),
    ensures
        parse::userlist(bytes + rest) == Ok::<(Map<u128, Seq<char>>, Seq<u8>), DecodeError>(
            (users, rest),
        ),
{
    let order = choose|order: Seq<(u128, Seq<char>)>|
        #[trigger] walk::lists(order, users) && bytes == wire::user_entries(order);
    lemma_user_entries(order, users, rest);
}

/// Whether the parts of a server's message can be counted.
pub open spec fn server_fits(m: ServerMessageView) -> bool {
    match m {
        ServerMessageView::Announce { route, clients } => route.len() <= usize::MAX && users_fit(
            clients,
        ),
        ServerMessageView::Message(msg) => msg.dsts.len() <= usize::MAX && fits(msg.content),
    }
}

/// An announcement that was written is read back.
proof fn lemma_announce(
    route: Seq<ServerId>,
    clients: Map<u128, Seq<char>>,
    bytes: Seq<u8>,
    rest: Seq<u8>,
)
    requires
        wire::is_announce(route, clients, bytes),
        route.len() <= usize::MAX,
        users_fit(clients),
    ensures
        parse::server(bytes + rest) == Ok::<(ServerMessageView, Seq<u8>), DecodeError>(
            (ServerMessageView::Announce { route, clients }, rest),
        ),
{
    let order = choose|order: Seq<(u128, Seq<char>)>|
        #[trigger] walk::lists(order, clients) && bytes == wire::announced(route)
            + wire::user_entries(order);
    let n = wire::number(route.len() as u128);
    let ids = wire::server_ids(route);
    let users = wire::user_entries(order);
    lemma_join4(wire::number(0), n, ids, users, rest);
    lemma_tag(0, n + (ids + (users + rest)));
    lemma_size(route.len() as u128, ids + (users + rest));
    lemma_server_ids(route, seq![], users + rest);
    assert(Seq::<ServerId>::empty() + route =~= route);
    lemma_user_entries(order, clients, rest);
}

/// A fully qualified message that was written is read back.
proof fn lemma_qualified(msg: FullyQualifiedMessageView, rest: Seq<u8>)
    requires
        msg.dsts.len() <= usize::MAX,
        fits(msg.content),
    ensures
        parse::qualified(wire::qualified(msg) + rest) == Ok::<
            (FullyQualifiedMessageView, Seq<u8>),
            DecodeError,
        >((msg, rest)),
{
    let src = wire::clientid(msg.src);
    let srcsrv = wire::serverid(msg.srcsrv);
    let n = wire::number(msg.dsts.len() as u128);
    let dsts = wire::destinations(msg.dsts);
    let text = wire::string(msg.content);
    lemma_join5(src, srcsrv, n, dsts, text, rest);
    law_clientid(msg.src, srcsrv + (n + (dsts + (text + rest))));
    law_serverid(msg.srcsrv, n + (dsts + (text + rest)));
    lemma_size(msg.dsts.len() as u128, dsts + (text + rest));
    lemma_destinations(msg.dsts, seq![], text + rest);
    assert(Seq::<(ClientId, ServerId)>::empty() + msg.dsts =~= msg.dsts);
    law_string(msg.content, rest);
}

/// A server's message that was written is read back.
pub proof fn law_server(m: ServerMessageView, bytes: Seq<u8>, rest: Seq<u8>)
    requires
        wire::is_server(m, bytes),
        server_fits(m),
    ensures
        parse::server(bytes + rest) == Ok::<(ServerMessageView, Seq<u8>), DecodeError>((m, rest)),
{
    match m {
        ServerMessageView::Announce { route, clients } => {
            lemma_announce(route, clients, bytes, rest);
        },
        ServerMessageView::Message(msg) => {
            lemma_join(wire::number(1), wire::qualified(msg), rest);
            lemma_tag(1, wire::qualified(msg) + rest);
            lemma_qualified(msg, rest);
        },
    }
}

/// The reason of a refusal that was written is read back.
proof fn lemma_client_error(err: ClientError, rest: Seq<u8>)
    ensures
        parse::client_error(wire::client_error(err) + rest) == Ok::<
            (ClientError, Seq<u8>),
            DecodeError,
        >((err, rest)),
{
    match err {
        ClientError::WorkProofError => lemma_size(0, rest),
        ClientError::UnknownClient => lemma_size(1, rest),
        ClientError::SequenceError => lemma_size(2, rest),
        ClientError::BoxFull(id) => {
            lemma_join(wire::number(3), wire::clientid(id), rest);
            lemma_size(3, wire::clientid(id) + rest);
            law_clientid(id, rest);
        },
        ClientError::InternalError => lemma_size(4, rest),
    }
}

/// Whether the parts of a reply to a client can be counted.
pub open spec fn client_reply_fits(m: ClientReplyView) -> bool {
    m matches ClientReplyView::Transfer(_, msg) ==> server_fits(msg)
}

/// A reply to a client that was written is read back.
pub proof fn law_client_reply(m: ClientReplyView, bytes: Seq<u8>, rest: Seq<u8>)
    requires
        wire::is_client_reply(m, bytes),
        client_reply_fits(m),
    ensures
        parse::client_reply(bytes + rest) == Ok::<(ClientReplyView, Seq<u8>), DecodeError>(
            (m, rest),
        ),
{
    match m {
        ClientReplyView::Delivered => lemma_size(0, rest),
        ClientReplyView::Error(err) => {
            lemma_join(wire::number(1), wire::client_error(err), rest);
            lemma_size(1, wire::client_error(err) + rest);
            lemma_client_error(err, rest);
        },
        ClientReplyView::Delayed => lemma_size(2, rest),
        ClientReplyView::Transfer(id, msg) => {
            let inner = choose|inner: Seq<u8>|
                #[trigger] wire::is_server(msg, inner) && bytes == wire::number(3)
                    + wire::serverid(id) + inner;
            lemma_join3(wire::number(3), wire::serverid(id), inner, rest);
            lemma_size(3, wire::serverid(id) + (inner + rest));
            law_serverid(id, inner + rest);
            law_server(msg, inner, rest);
        },
    }
}

/// The replies that `n` readings take off, behind those of `seen`.
pub open spec fn taken(b: Seq<u8>, n: nat, seen: Seq<ClientReplyView>) -> parse::Parsed<
    Seq<ClientReplyView>,
>
    decreases n,
{
    if n == 0 {
        Ok((seen, b))
    } else {
        match parse::client_reply(b) {
            Ok((reply, rest)) => taken(rest, (n - 1) as nat, seen.push(reply)),
            Err(e) => Err(e),
        }
    }
}

/// The first reply of several.
proof fn lemma_first_reply(m: Seq<ClientReplyView>, parts: Seq<Seq<u8>>, rest: Seq<u8>)
    requires
        m.len() > 0,
        wire::are_client_replies(m, parts),
        forall|i: int| 0 <= i < m.len() ==> client_reply_fits(#[trigger] m[i]),
    ensures
        parse::client_reply(parts.flatten() + rest) == Ok::<
            (ClientReplyView, Seq<u8>),
            DecodeError,
        >((m[0], parts.drop_first().flatten() + rest)),
        wire::are_client_replies(m.drop_first(), parts.drop_first()),
        forall|i: int|
            0 <= i < m.drop_first().len() ==> client_reply_fits(#[trigger] m.drop_first()[i]),
{
    let others = parts.drop_first().flatten();
    lemma_join(parts[0], others, rest);
    assert(client_reply_fits(m[0]));
    assert(wire::is_client_reply(m[0], parts[0]));
    law_client_reply(m[0], parts[0], others + rest);
    assert forall|i: int| 0 <= i < m.drop_first().len() implies client_reply_fits(
        #[trigger] m.drop_first()[i],
    ) by {
        assert(client_reply_fits(m[i + 1]));
    }
    assert forall|i: int| 0 <= i < m.drop_first().len() implies wire::is_client_reply(
        m.drop_first()[i],
        #[trigger] parts.drop_first()[i],
    ) by {
        assert(wire::is_client_reply(m[i + 1], parts[i + 1]));
    }
}

/// Replies that were written are read back one by one.
proof fn lemma_taken(
    m: Seq<ClientReplyView>,
    parts: Seq<Seq<u8>>,
    seen: Seq<ClientReplyView>,
    rest: Seq<u8>,
)
    requires
        wire::are_client_replies(m, parts),
        forall|i: int| 0 <= i < m.len() ==> client_reply_fits(#[trigger] m[i]),
    ensures
        taken(parts.flatten() + rest, m.len(), seen) == Ok::<
            (Seq<ClientReplyView>, Seq<u8>),
            DecodeError,
        >((seen + m, rest)),
    decreases m.len(),
{
    if m.len() == 0 {
        assert(parts.flatten() + rest =~= rest);
        assert(seen + m =~= seen);
    } else {
        lemma_first_reply(m, parts, rest);
        lemma_taken(m.drop_first(), parts.drop_first(), seen.push(m[0]), rest);
        lemma_move(seen, m);
    }
}

/// Reading on behind replies comes to where reading behind them comes.
proof fn lemma_end(m: Seq<ClientReplyView>, parts: Seq<Seq<u8>>, rest: Seq<u8>)
    requires
        wire::are_client_replies(m, parts),
        forall|i: int| 0 <= i < m.len() ==> client_reply_fits(#[trigger] m[i]),
    ensures
        parse::client_replies_end(parts.flatten() + rest) == parse::client_replies_end(rest),
    decreases m.len(),
{
    if m.len() == 0 {
        assert(parts.flatten() + rest =~= rest);
    } else {
        lemma_first_reply(m, parts, rest);
        lemma_end(m.drop_first(), parts.drop_first(), rest);
    }
}

/// Replies to a client that were written are read back by as many readings of
/// one reply. Reading on from there finds no further reply: it comes to an
/// unexpected end.
pub proof fn law_client_replies(m: Seq<ClientReplyView>, bytes: Seq<u8>, rest: Seq<u8>)
    requires
        wire::is_client_replies(m, bytes),
        forall|i: int| 0 <= i < m.len() ==> client_reply_fits(#[trigger] m[i]),
    ensures
        taken(bytes + rest, m.len(), seq![]) == Ok::<(Seq<ClientReplyView>, Seq<u8>), DecodeError>(
            (m, rest),
        ),
        parse::client_replies_end(bytes) == DecodeError::UnexpectedEof,
{
    let parts = choose|parts: Seq<Seq<u8>>|
        #[trigger] wire::are_client_replies(m, parts) && bytes == parts.flatten();
    lemma_taken(m, parts, seq![], rest);
    assert(Seq::<ClientReplyView>::empty() + m =~= m);
    lemma_end(m, parts, seq![]);
    assert(bytes + seq![] =~= bytes);
}

/// Lists of replies that are written one after the other are one list.
pub proof fn law_client_replies_join(
    a: Seq<ClientReplyView>,
    first: Seq<u8>,
    b: Seq<ClientReplyView>,
    second: Seq<u8>,
)
    requires
        wire::is_client_replies(a, first),
        wire::is_client_replies(b, second),
    ensures
        wire::is_client_replies(a + b, first + second),
{
    let x = choose|x: Seq<Seq<u8>>| #[trigger]
        wire::are_client_replies(a, x) && first == x.flatten();
    let y = choose|y: Seq<Seq<u8>>| #[trigger]
        wire::are_client_replies(b, y) && second == y.flatten();
    lemma_parts_join(a, x, b, y);
}

/// The parts of two lists of replies are the parts of one.
proof fn lemma_parts_join(
    a: Seq<ClientReplyView>,
    x: Seq<Seq<u8>>,
    b: Seq<ClientReplyView>,
    y: Seq<Seq<u8>>,
)
    requires
        wire::are_client_replies(a, x),
        wire::are_client_replies(b, y),
    ensures
        wire::is_client_replies(a + b, x.flatten() + y.flatten()),
    decreases b.len(),
{
    y.lemma_flatten_and_flatten_alt_are_equivalent();
    if b.len() == 0 {
        assert(a + b =~= a);
        assert(x.flatten() + y.flatten() =~= x.flatten());
    } else {
        let front = y.drop_last();
        assert(wire::are_client_replies(b.drop_last(), front));
        lemma_parts_join(a, x, b.drop_last(), front);
        front.lemma_flatten_and_flatten_alt_are_equivalent();
        wire::lemma_client_replies_push(
            a + b.drop_last(),
            x.flatten() + front.flatten(),
            b.last(),
            y.last(),
        );
        assert((a + b.drop_last()).push(b.last()) =~= a + b);
        assert(x.flatten() + front.flatten() + y.last() =~= x.flatten() + y.flatten());
    }
}

/// The answer to a client that polls is read back once written.
pub proof fn law_client_poll_reply(m: ClientPollReplyView, rest: Seq<u8>)
    requires
        m matches ClientPollReplyView::Message { src, content } ==> fits(content),
    ensures
        parse::client_poll_reply(wire::client_poll_reply(m) + rest) == Ok::<
            (ClientPollReplyView, Seq<u8>),
            DecodeError,
        >((m, rest)),
{
    match m {
        ClientPollReplyView::Message { src, content } => {
            let text = wire::string(content);
            lemma_join3(wire::number(0), wire::clientid(src), text, rest);
            lemma_size(0, wire::clientid(src) + (text + rest));
            law_clientid(src, text + rest);
            law_string(content, rest);
        },
        ClientPollReplyView::DelayedError(err) => {
            let id = err->UnknownRecipient_0;
            lemma_join3(wire::number(1), wire::number(0), wire::clientid(id), rest);
            lemma_size(1, wire::number(0) + (wire::clientid(id) + rest));
            lemma_size(0, wire::clientid(id) + rest);
            law_clientid(id, rest);
        },
        ClientPollReplyView::Nothing => lemma_size(2, rest),
    }
}

/// Whether the parts of a client's query can be counted.
pub open spec fn client_query_fits(m: ClientQueryView) -> bool {
    match m {
        ClientQueryView::Register(name) => fits(name),
        ClientQueryView::Message(msg) => client_fits(msg),
        ClientQueryView::Poll => true,
        ClientQueryView::ListUsers => true,
    }
}

/// A client's query that was written is read back.
pub proof fn law_client_query(m: ClientQueryView, rest: Seq<u8>)
    requires
        client_query_fits(m),
    ensures
        parse::client_query(wire::client_query(m) + rest) == Ok::<
            (ClientQueryView, Seq<u8>),
            DecodeError,
        >((m, rest)),
{
    match m {
        ClientQueryView::Register(name) => {
            lemma_join(wire::number(0), wire::string(name), rest);
            lemma_size(0, wire::string(name) + rest);
            law_string(name, rest);
        },
        ClientQueryView::Message(msg) => {
            lemma_join(wire::number(1), wire::client(msg), rest);
            lemma_size(1, wire::client(msg) + rest);
            law_client(msg, rest);
        },
        ClientQueryView::Poll => lemma_size(2, rest),
        ClientQueryView::ListUsers => lemma_size(3, rest),
    }
}

/// What stands before the content of a sequenced request is read back once
/// written, and leaves the content.
pub proof fn law_sequence_header(seqid: u128, src: ClientId, workproof: u128, content: Seq<u8>)
    ensures
        parse::sequence_header(wire::sequence_header(seqid, src, workproof) + content) == Ok::<
            ((u128, ClientId, u128), Seq<u8>),
            DecodeError,
        >(((seqid, src, workproof), content)),
{
    let id = wire::clientid(src);
    let work = wire::number(workproof);
    lemma_join3(wire::number(seqid), id, work, content);
    law_number(seqid, id + (work + content));
    law_clientid(src, work + content);
    law_number(workproof, content);
}

} // verus!
