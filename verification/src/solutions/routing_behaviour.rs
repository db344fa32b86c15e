//! What each operation of a server that routes texts does, in terms of its
//! clients, its routes and its stored texts.
use super::citrini_repplinger_vassoille as routing;
use super::citrini_repplinger_vassoille::ServerView;
use super::registry::ClientView;
use super::relay::{ClientInfoView, StoredView};
use super::{registry, registry_laws, relay, relay_laws, routing_laws};
use crate::messages::{
    ClientError, ClientId, ClientMessageView, ClientPollReplyView, ClientReplyView,
    FullyQualifiedMessageView, OutgoingView, ServerId, ServerMessageView, ServerReplyView,
};
use vstd::prelude::*;

verus! {

/// Whether the route at `r` is the first with a server on it.
pub open spec fn is_first_route(
    routes: Seq<Seq<ServerId>>,
    destination: ServerId,
    r: int,
) -> bool {
    &&& 0 <= r < routes.len()
    &&& routes[r].contains(destination)
    &&& forall|j: int| 0 <= j < r ==> !(#[trigger] routes[j]).contains(destination)
}

/// Whether no route has a server on it.
pub open spec fn has_no_route(routes: Seq<Seq<ServerId>>, destination: ServerId) -> bool {
    forall|j: int| 0 <= j < routes.len() ==> !(#[trigger] routes[j]).contains(destination)
}

/// The route that is found is the first with the server on it.
proof fn lemma_found(s: ServerView, destination: ServerId, r: int)
    requires
        is_first_route(s.routes, destination, r),
    ensures
        routing::found(s, destination) == Some(s.routes[r]),
        s.routes[r].len() > 0,
{
    routing::law_first_route(s.routes, destination);
    let k = routing::first_route(s.routes, destination)->0 as int;
    assert(s.routes[r].contains(destination));
    assert(!(r < k) && !(k < r));
}

/// The way to a server goes hop by hop back along the first announced route
/// with that server on it: it starts with this server, each further server is
/// the one before the last one on the route, and it ends where the other server
/// comes first.
pub proof fn law_hops(s: ServerView, destination: ServerId, r: int)
    requires
        is_first_route(s.routes, destination, r),
    ensures
        routing::route(s, destination) is Some,
        ({
            let way = routing::route(s, destination)->0;
            let announced = s.routes[r];
            &&& 2 <= way.len() <= announced.len() + 1
            &&& way[0] == s.id
            &&& forall|j: int|
                1 <= j < way.len() ==> #[trigger] way[j] == announced[announced.len() - j]
            &&& way.last() == destination
            &&& forall|j: int| 1 <= j < way.len() - 1 ==> #[trigger] way[j] != destination
        }),
{
    lemma_found(s, destination, r);
    let announced = s.routes[r];
    let back = announced.reverse();
    let j = announced.index_of(destination);
    assert(back[announced.len() - 1 - j] == destination);
    back.index_of_first_ensures(destination);
}

/// There is no way to a server that is on no announced route.
pub proof fn law_no_way(s: ServerView, destination: ServerId)
    ensures
        routing::route(s, destination) is None <==> has_no_route(s.routes, destination),
{
    routing::law_first_route(s.routes, destination);
}

/// A server is in order exactly if no mailbox holds more than it may, the
/// server of each remote client is on a route, and no stored text is for a
/// remote client.
pub proof fn law_in_order(s: ServerView, limit: nat)
    ensures
        routing::in_order(s, limit) <==> {
            &&& forall|i: int|
                0 <= i < s.clients.len() ==> (#[trigger] s.clients[i]).mailbox.len() <= limit
            &&& forall|k: u128| #[trigger]
                s.remote_clients.contains_key(k) ==> !has_no_route(
                    s.routes,
                    s.remote_clients[k].server,
                )
            &&& forall|i: int|
                0 <= i < s.stored.len() ==> !s.remote_clients.contains_key(
                    (#[trigger] s.stored[i]).dst.0,
                )
        },
{
    assert forall|k: u128| #[trigger] s.remote_clients.contains_key(k) implies (routing::route(
        s,
        s.remote_clients[k].server,
    ) is Some) == !has_no_route(s.routes, s.remote_clients[k].server) by {
        law_no_way(s, s.remote_clients[k].server);
    }
}

/// Registering a client adds it behind the others, with an empty mailbox and
/// no request seen, and changes nothing else.
pub proof fn law_registered(s: ServerView, id: ClientId, name: Seq<char>)
    ensures
        routing::registered(s, id, name) == (ServerView {
            id: s.id,
            clients: s.clients.push(ClientView { id, name, last_seen: 0, mailbox: seq![] }),
            routes: s.routes,
            stored: s.stored,
            remote_clients: s.remote_clients,
        }),
{
}

/// A request without a proof of work that holds is refused, whatever was
/// accepted before; so is one of an unknown client. Neither changes the
/// server.
pub proof fn law_request_refused(s: ServerView, src: ClientId, seqid: u128)
    ensures
        routing::request(s, src, seqid, false) == (s, Some(ClientError::WorkProofError)),
        registry_laws::is_absent(s.clients, src) ==> routing::request(s, src, seqid, true) == (
            s,
            Some(ClientError::UnknownClient),
        ),
{
    registry_laws::law_found(s.clients, src, 0);
}

/// A request of a registered client with a proof of work that holds is accepted
/// exactly if its number is above the last one, which it then replaces; nothing
/// else changes.
pub proof fn law_request(s: ServerView, src: ClientId, seqid: u128, i: int)
    requires
        registry_laws::is_first(s.clients, src, i),
    ensures
        routing::request(s, src, seqid, true) == if seqid <= s.clients[i].last_seen {
            (s, Some(ClientError::SequenceError))
        } else {
            (
                ServerView {
                    id: s.id,
                    clients: s.clients.update(
                        i,
                        ClientView {
                            id: src,
                            name: s.clients[i].name,
                            last_seen: seqid,
                            mailbox: s.clients[i].mailbox,
                        },
                    ),
                    routes: s.routes,
                    stored: s.stored,
                    remote_clients: s.remote_clients,
                },
                None,
            )
        },
{
    registry_laws::law_found(s.clients, src, i);
}

/// A poll of an unknown client gives nothing and changes nothing.
pub proof fn law_poll_unknown(s: ServerView, id: ClientId)
    requires
        registry_laws::is_absent(s.clients, id),
    ensures
        routing::poll(s, id) == (s, ClientPollReplyView::Nothing),
{
    registry_laws::law_found(s.clients, id, 0);
}

/// A poll of a registered client gives the first entry of its mailbox, sender
/// and text, which alone leaves it; if there is none, it gives nothing and
/// changes nothing.
pub proof fn law_poll(s: ServerView, id: ClientId, i: int)
    requires
        registry_laws::is_first(s.clients, id, i),
    ensures
        ({
            let mailbox = s.clients[i].mailbox;
            routing::poll(s, id) == if mailbox.len() == 0 {
                (s, ClientPollReplyView::Nothing)
            } else {
                (
                    ServerView {
                        id: s.id,
                        clients: s.clients.update(
                            i,
                            ClientView {
                                id,
                                name: s.clients[i].name,
                                last_seen: s.clients[i].last_seen,
                                mailbox: mailbox.subrange(1, mailbox.len() as int),
                            },
                        ),
                        routes: s.routes,
                        stored: s.stored,
                        remote_clients: s.remote_clients,
                    },
                    ClientPollReplyView::Message { src: mailbox[0].0, content: mailbox[0].1 },
                )
            }
        }),
{
    registry_laws::law_found(s.clients, id, i);
    let mailbox = s.clients[i].mailbox;
    if mailbox.len() > 0 {
        assert(mailbox.drop_first() =~= mailbox.subrange(1, mailbox.len() as int));
    }
}

/// A text for a registered client goes to the end of its mailbox, if that has
/// room, and is refused otherwise; nothing else changes.
pub proof fn law_local_text(
    s: ServerView,
    limit: nat,
    src: ClientId,
    dest: ClientId,
    content: Seq<char>,
    i: int,
)
    requires
        registry_laws::is_first(s.clients, dest, i),
    ensures
        routing::text(s, limit, src, dest, content) == if s.clients[i].mailbox.len() < limit {
            (
                ServerView {
                    id: s.id,
                    clients: s.clients.update(
                        i,
                        ClientView {
                            id: dest,
                            name: s.clients[i].name,
                            last_seen: s.clients[i].last_seen,
                            mailbox: s.clients[i].mailbox.push((src, content)),
                        },
                    ),
                    routes: s.routes,
                    stored: s.stored,
                    remote_clients: s.remote_clients,
                },
                ClientReplyView::Delivered,
            )
        } else {
            (s, ClientReplyView::Error(ClientError::BoxFull(dest)))
        },
{
    registry_laws::law_found(s.clients, dest, i);
}

/// A text for a client of another server is to be transferred to the server
/// that its announcement came over. It names the client with the server at the
/// start of the first route to there, and changes nothing.
pub proof fn law_remote_text(
    s: ServerView,
    limit: nat,
    src: ClientId,
    dest: ClientId,
    content: Seq<char>,
    r: int,
)
    requires
        registry_laws::is_absent(s.clients, dest),
        s.remote_clients.contains_key(dest.0),
        is_first_route(s.routes, s.remote_clients[dest.0].server, r),
    ensures
        routing::text(s, limit, src, dest, content) == (
            s,
            ClientReplyView::Transfer(
                s.remote_clients[dest.0].server,
                ServerMessageView::Message(
                    FullyQualifiedMessageView {
                        src,
                        srcsrv: s.id,
                        dsts: seq![(dest, s.routes[r][0])],
                        content,
                    },
                ),
            ),
        ),
{
    registry_laws::law_found(s.clients, dest, 0);
    lemma_found(s, s.remote_clients[dest.0].server, r);
}

/// A text for an unknown client is stored behind the others; nothing else
/// changes.
pub proof fn law_unknown_text(
    s: ServerView,
    limit: nat,
    src: ClientId,
    dest: ClientId,
    content: Seq<char>,
)
    requires
        registry_laws::is_absent(s.clients, dest),
        !s.remote_clients.contains_key(dest.0),
    ensures
        routing::text(s, limit, src, dest, content) == (
            ServerView {
                id: s.id,
                clients: s.clients,
                routes: s.routes,
                stored: s.stored.push(StoredView { src, dst: dest, content }),
                remote_clients: s.remote_clients,
            },
            ClientReplyView::Delayed,
        ),
{
    registry_laws::law_found(s.clients, dest, 0);
}

/// A client's text for one client is handled as that text, with one reply.
pub proof fn law_client_text(
    s: ServerView,
    limit: nat,
    src: ClientId,
    dest: ClientId,
    content: Seq<char>,
)
    ensures
        ({
            let (after, reply) = routing::text(s, limit, src, dest, content);
            routing::client_message(s, limit, src, ClientMessageView::Text { dest, content }) == (
                after,
                seq![reply],
            )
        }),
{
}

/// A client's text for several clients is handled as a text for each of them
/// in turn: a further destination is handled by the server as the others left
/// it, and its reply comes behind theirs.
pub proof fn law_client_texts(
    s: ServerView,
    limit: nat,
    src: ClientId,
    dest: Seq<ClientId>,
    next: ClientId,
    content: Seq<char>,
)
    ensures
        ({
            let none = ClientMessageView::MText { dest: seq![], content };
            let some = ClientMessageView::MText { dest, content };
            let more = ClientMessageView::MText { dest: dest.push(next), content };
            let (before, replies) = routing::client_message(s, limit, src, some);
            let (after, reply) = routing::text(before, limit, src, next, content);
            &&& routing::client_message(s, limit, src, none) == (s, Seq::<ClientReplyView>::empty())
            &&& routing::client_message(s, limit, src, more) == (after, replies.push(reply))
        }),
{
    assert(dest.push(next).drop_last() =~= dest);
}

/// Whether a client is neither registered nor a client of another server.
pub open spec fn is_unknown(s: ServerView, id: ClientId) -> bool {
    registry_laws::is_absent(s.clients, id) && !s.remote_clients.contains_key(id.0)
}

/// What a client's text for several clients does: it is stored for each unknown
/// destination, in order; the mailbox of each registered one takes a copy for
/// each time that it is a destination, as far as it has room; and nothing else
/// changes.
pub proof fn law_texts_do(
    s: ServerView,
    limit: nat,
    src: ClientId,
    dest: Seq<ClientId>,
    content: Seq<char>,
)
    ensures
        ({
            let msg = ClientMessageView::MText { dest, content };
            let after = routing::client_message(s, limit, src, msg).0;
            &&& after.id == s.id
            &&& after.routes == s.routes
            &&& after.remote_clients == s.remote_clients
            &&& after.stored == s.stored + dest.filter(
                |d: ClientId| is_unknown(s, d),
            ).map_values(|d: ClientId| StoredView { src, dst: d, content })
            &&& after.clients.len() == s.clients.len()
            &&& forall|i: int|
                0 <= i < s.clients.len() ==> #[trigger] after.clients[i]
                    == if registry_laws::is_first(s.clients, s.clients[i].id, i) {
                    ClientView {
                        mailbox: registry_laws::filled(
                            s.clients[i].mailbox,
                            limit,
                            (src, content),
                            registry_laws::times(dest, s.clients[i].id),
                        ),
                        ..s.clients[i]
                    }
                } else {
                    s.clients[i]
                }
        }),
    decreases dest.len(),
{
    reveal(Seq::filter);
    let unknown = |d: ClientId| is_unknown(s, d);
    let kept = |d: ClientId| StoredView { src, dst: d, content };
    let after = routing::texts(s, limit, src, dest, content).0;
    if dest.len() == 0 {
        assert(dest.filter(unknown).map_values(kept) =~= seq![]);
        assert(after == s);
        assert(s.stored + dest.filter(unknown).map_values(kept) =~= s.stored);
        assert forall|i: int| 0 <= i < s.clients.len() implies registry_laws::filled(
            (#[trigger] after.clients[i]).mailbox,
            limit,
            (src, content),
            0,
        ) == s.clients[i].mailbox by {
            registry_laws::lemma_filled(s.clients[i].mailbox, limit, (src, content), 0);
        }
    } else {
        let front = dest.drop_last();
        let d = dest.last();
        let before = routing::texts(s, limit, src, front, content).0;
        law_texts_do(s, limit, src, front, content);
        registry_laws::lemma_first_kept(s.clients, before.clients, d, 0);
        registry::law_delivery_keeps(before.clients, limit, src, d, content);
        registry_laws::law_found(before.clients, d, 0);
        if unknown(d) {
            law_unknown_text(before, limit, src, d, content);
            let list = front.filter(unknown);
            assert(s.stored + list.push(d).map_values(kept) =~= (s.stored + list.map_values(
                kept,
            )).push(kept(d)));
        }
        assert forall|i: int| 0 <= i < s.clients.len() implies #[trigger] after.clients[i]
            == if registry_laws::is_first(s.clients, s.clients[i].id, i) {
            ClientView {
                mailbox: registry_laws::filled(
                    s.clients[i].mailbox,
                    limit,
                    (src, content),
                    registry_laws::times(dest, s.clients[i].id),
                ),
                ..s.clients[i]
            }
        } else {
            s.clients[i]
        } by {
            let id = s.clients[i].id;
            registry_laws::law_delivered_at(before.clients, limit, src, d, content, i);
            registry_laws::lemma_first_kept(s.clients, before.clients, d, i);
            registry_laws::lemma_filled(
                s.clients[i].mailbox,
                limit,
                (src, content),
                registry_laws::times(front, id),
            );
        }
    }
}

/// The replies to a client's text for several clients: one for each. That for a
/// registered destination says whether its mailbox had room for a copy more
/// than it had got before; that for any other is the one that a text for it
/// alone would have got.
pub proof fn law_replies(
    s: ServerView,
    limit: nat,
    src: ClientId,
    dest: Seq<ClientId>,
    content: Seq<char>,
    k: int,
    i: int,
)
    requires
        0 <= k < dest.len(),
    ensures
        ({
            let msg = ClientMessageView::MText { dest, content };
            let replies = routing::client_message(s, limit, src, msg).1;
            let copies = registry_laws::times(dest.take(k), dest[k]);
            &&& replies.len() == dest.len()
            &&& registry_laws::is_first(s.clients, dest[k], i) ==> replies[k]
                == if s.clients[i].mailbox.len() + copies < limit {
                ClientReplyView::Delivered
            } else {
                ClientReplyView::Error(ClientError::BoxFull(dest[k]))
            }
            &&& registry_laws::is_absent(s.clients, dest[k]) ==> replies[k] == routing::text(
                s,
                limit,
                src,
                dest[k],
                content,
            ).1
        }),
{
    let d = dest[k];
    let before = routing::texts(s, limit, src, dest.take(k), content).0;
    routing_laws::law_texts(s, limit, src, dest, content);
    law_texts_do(s, limit, src, dest.take(k), content);
    assert(routing::texts(s, limit, src, dest, content).1[k] == routing::text(
        before,
        limit,
        src,
        d,
        content,
    ).1);
    registry_laws::lemma_first_kept(s.clients, before.clients, d, i);
    if registry_laws::is_first(s.clients, d, i) {
        law_local_text(before, limit, src, d, content, i);
        registry_laws::lemma_filled(
            s.clients[i].mailbox,
            limit,
            (src, content),
            registry_laws::times(dest.take(k), d),
        );
    }
    if registry_laws::is_absent(s.clients, d) {
        registry_laws::law_found(before.clients, d, 0);
        registry_laws::law_found(s.clients, d, 0);
    }
}

/// A text for several clients that was delayed for one of them goes out when
/// that one is announced for the first time, whatever the server does in
/// between: to the last server of the first route to where the announcement
/// came over.
pub proof fn law_delayed_texts_go_out(
    s: ServerView,
    limit: nat,
    src: ClientId,
    dest: Seq<ClientId>,
    content: Seq<char>,
    k: int,
    events: Seq<routing_laws::Event>,
    route: Seq<ServerId>,
    clients: Map<u128, Seq<char>>,
    r: int,
)
    requires
        0 <= k < dest.len(),
        is_unknown(s, dest[k]),
        !routing_laws::run(
            routing::client_message(s, limit, src, ClientMessageView::MText { dest, content }).0,
            limit,
            events,
        ).remote_clients.contains_key(dest[k].0),
        route.len() > 0,
        clients.contains_key(dest[k].0),
        is_first_route(
            routing_laws::run(
                routing::client_message(
                    s,
                    limit,
                    src,
                    ClientMessageView::MText { dest, content },
                ).0,
                limit,
                events,
            ).routes.push(route),
            route.last(),
            r,
        ),
    ensures
        ({
            let msg = ClientMessageView::MText { dest, content };
            let (asked, replies) = routing::client_message(s, limit, src, msg);
            let later = routing_laws::run(asked, limit, events);
            let announce = ServerMessageView::Announce { route, clients };
            let way = later.routes.push(route)[r];
            &&& replies[k] is Delayed
            &&& routing::server_message(later, limit, announce).1 matches
                ServerReplyView::Outgoing(list)
            &&& list.contains(
                OutgoingView {
                    nexthop: way.last(),
                    message: FullyQualifiedMessageView {
                        src,
                        srcsrv: s.id,
                        dsts: seq![(dest[k], way[0])],
                        content,
                    },
                },
            )
        }),
{
    let msg = ClientMessageView::MText { dest, content };
    let d = dest[k];
    let m = StoredView { src, dst: d, content };
    let (asked, replies) = routing::client_message(s, limit, src, msg);
    let later = routing_laws::run(asked, limit, events);
    law_replies(s, limit, src, dest, content, k, 0);
    law_unknown_text(s, limit, src, d, content);
    law_texts_do(s, limit, src, dest, content);
    let unknown = |d: ClientId| is_unknown(s, d);
    let kept = |d: ClientId| StoredView { src, dst: d, content };
    let list = dest.filter(unknown);
    dest.lemma_filter_contains(unknown, k);
    let n = list.index_of(d);
    let at = s.stored.len() + n;
    assert(asked.stored[at] == list.map_values(kept)[n]);
    assert(asked.stored[at] == m);
    let for_d = |m: StoredView| m.dst == d;
    asked.stored.lemma_filter_contains(for_d, at);
    let old = relay_laws::stored_for(asked.stored, d);
    assert(old.contains(m));
    routing_laws::law_run(asked, limit, events);
    let new = relay_laws::stored_for(later.stored, d);
    let p = old.index_of(m);
    assert(old =~= new.take(old.len() as int));
    assert(new[p] == m);
    relay_laws::lemma_due(later.stored, clients, d, p);
    let texts = relay::due(later.stored, clients);
    let q = texts.index_of(m);
    law_announcement(later, limit, route, clients, r);
    let announce = ServerMessageView::Announce { route, clients };
    let sent = routing::server_message(later, limit, announce).1->Outgoing_0;
    let way = later.routes.push(route)[r];
    assert(texts == later.stored.filter(|m: StoredView| clients.contains_key(m.dst.0)));
    assert(sent[q].message.dsts == seq![(d, way[0])]);
    assert(sent[q] == OutgoingView {
        nexthop: way.last(),
        message: FullyQualifiedMessageView {
            src,
            srcsrv: s.id,
            dsts: seq![(d, way[0])],
            content,
        },
    });
}

/// What an announcement does. Its route comes behind the others. Each of its
/// clients is known by the announced name and the last server of the route, and
/// every other client as before. The stored texts for its clients, and no
/// others, leave the stored ones and go out, in order: to the last server of
/// the first route with that last server on it, with their sender, this server,
/// their destination with the first server of that route, and their content.
pub proof fn law_announcement(
    s: ServerView,
    limit: nat,
    route: Seq<ServerId>,
    clients: Map<u128, Seq<char>>,
    r: int,
)
    requires
        route.len() > 0,
        is_first_route(s.routes.push(route), route.last(), r),
    ensures
        ({
            let announce = ServerMessageView::Announce { route, clients };
            let (after, reply) = routing::server_message(s, limit, announce);
            let way = s.routes.push(route)[r];
            let texts = s.stored.filter(|m: StoredView| clients.contains_key(m.dst.0));
            &&& after.id == s.id
            &&& after.clients == s.clients
            &&& after.routes == s.routes.push(route)
            &&& forall|k: u128| #[trigger]
                after.remote_clients.contains_key(k) <==> clients.contains_key(k)
                    || s.remote_clients.contains_key(k)
            &&& forall|k: u128| #[trigger]
                clients.contains_key(k) ==> after.remote_clients[k] == (ClientInfoView {
                    name: clients[k],
                    server: route.last(),
                })
            &&& forall|k: u128| #[trigger]
                s.remote_clients.contains_key(k) && !clients.contains_key(k)
                    ==> after.remote_clients[k] == s.remote_clients[k]
            &&& after.stored == s.stored.filter(
                |m: StoredView| !clients.contains_key(m.dst.0),
            )
            &&& reply matches ServerReplyView::Outgoing(list)
            &&& list.len() == texts.len()
            &&& forall|i: int|
                0 <= i < list.len() ==> {
                    &&& (#[trigger] list[i]).nexthop == way.last()
                    &&& list[i].message.src == texts[i].src
                    &&& list[i].message.srcsrv == s.id
                    &&& list[i].message.dsts == seq![(texts[i].dst, way[0])]
                    &&& list[i].message.content == texts[i].content
                }
        }),
{
    let announce = ServerMessageView::Announce { route, clients };
    let (after, reply) = routing::server_message(s, limit, announce);
    let texts = relay::due(s.stored, clients);
    let server = route.last();
    lemma_found(after, server, r);
    law_hops(after, server, r);
    assert forall|i: int| 0 <= i < texts.len() implies after.remote_clients[(
    #[trigger] texts[i]).dst.0].server == server by {
        relay::lemma_due(s.stored, clients, i);
    }
}

/// An announcement without a route is refused and changes nothing.
pub proof fn law_announcement_refused(
    s: ServerView,
    limit: nat,
    route: Seq<ServerId>,
    clients: Map<u128, Seq<char>>,
)
    ensures
        ({
            let announce = ServerMessageView::Announce { route, clients };
            let (after, reply) = routing::server_message(s, limit, announce);
            &&& reply is EmptyRoute <==> route.len() == 0
            &&& route.len() == 0 ==> after == s
        }),
{
}

/// What becomes of a text from another server. If all its destinations are
/// registered, the mailbox of each client takes a copy for each time that it is
/// a destination, as far as it has room; nothing is sent on and nothing else
/// changes.
pub proof fn law_message_delivered(s: ServerView, limit: nat, msg: FullyQualifiedMessageView)
    requires
        forall|k: int|
            0 <= k < msg.dsts.len() ==> !registry_laws::is_absent(
                s.clients,
                (#[trigger] msg.dsts[k]).0,
            ),
    ensures
        ({
            let (after, reply) = routing::server_message(
                s,
                limit,
                ServerMessageView::Message(msg),
            );
            &&& reply == ServerReplyView::Outgoing(seq![])
            &&& after.id == s.id
            &&& after.routes == s.routes
            &&& after.stored == s.stored
            &&& after.remote_clients == s.remote_clients
            &&& after.clients.len() == s.clients.len()
            &&& forall|i: int|
                0 <= i < s.clients.len() ==> #[trigger] after.clients[i]
                    == if registry_laws::is_first(s.clients, s.clients[i].id, i) {
                    ClientView {
                        mailbox: registry_laws::filled(
                            s.clients[i].mailbox,
                            limit,
                            (msg.src, msg.content),
                            registry_laws::times_at(msg.dsts, s.clients[i].id),
                        ),
                        ..s.clients[i]
                    }
                } else {
                    s.clients[i]
                }
        }),
{
    registry_laws::law_all_local(s.clients, msg.dsts);
    registry::law_deliveries_keep(s.clients, limit, msg.src, msg.dsts, msg.content);
    let after = routing::server_message(s, limit, ServerMessageView::Message(msg)).0;
    assert forall|i: int| 0 <= i < s.clients.len() implies #[trigger] after.clients[i]
        == if registry_laws::is_first(s.clients, s.clients[i].id, i) {
        ClientView {
            mailbox: registry_laws::filled(
                s.clients[i].mailbox,
                limit,
                (msg.src, msg.content),
                registry_laws::times_at(msg.dsts, s.clients[i].id),
            ),
            ..s.clients[i]
        }
    } else {
        s.clients[i]
    } by {
        registry_laws::law_delivered_to(s.clients, limit, msg.src, msg.dsts, msg.content, i);
    }
}

/// If a destination of a text from another server is not registered, the text
/// goes on as it is, to the server at the start of the first route with the
/// server of its first destination on it; nothing changes.
pub proof fn law_message_forwarded(
    s: ServerView,
    limit: nat,
    msg: FullyQualifiedMessageView,
    k: int,
    r: int,
)
    requires
        0 <= k < msg.dsts.len(),
        registry_laws::is_absent(s.clients, msg.dsts[k].0),
        is_first_route(s.routes, msg.dsts[0].1, r),
    ensures
        routing::server_message(s, limit, ServerMessageView::Message(msg)) == (
            s,
            ServerReplyView::Outgoing(
                seq![OutgoingView { nexthop: s.routes[r][0], message: msg }],
            ),
        ),
{
    registry_laws::law_all_local(s.clients, msg.dsts);
    lemma_found(s, msg.dsts[0].1, r);
}

/// A server knows what to do with a text from another server exactly if it has
/// a destination, and all its destinations are registered or the server of the
/// first one is on a route.
pub proof fn law_deliverable(s: ServerView, msg: FullyQualifiedMessageView)
    ensures
        routing::deliverable(s, msg) <==> {
            &&& msg.dsts.len() > 0
            &&& {
                ||| forall|k: int|
                    0 <= k < msg.dsts.len() ==> !registry_laws::is_absent(
                        s.clients,
                        (#[trigger] msg.dsts[k]).0,
                    )
                ||| !has_no_route(s.routes, msg.dsts[0].1)
            }
        },
{
    registry_laws::law_all_local(s.clients, msg.dsts);
    if msg.dsts.len() > 0 {
        law_no_way(s, msg.dsts[0].1);
    }
}

/// Who is listed, and under which name: a client of another server under the
/// announced name, and any other registered client under the name of the last
/// client with its identifier.
pub proof fn law_listed(s: ServerView, k: u128, i: int)
    ensures
        routing::users(s).contains_key(k) <==> s.remote_clients.contains_key(k)
            || !registry_laws::is_absent(s.clients, ClientId(k)),
        s.remote_clients.contains_key(k) ==> routing::users(s)[k] == s.remote_clients[k].name,
        !s.remote_clients.contains_key(k) && 0 <= i < s.clients.len() && s.clients[i].id
            == ClientId(k) && (forall|j: int|
            i < j < s.clients.len() ==> (#[trigger] s.clients[j]).id != ClientId(k))
            ==> routing::users(s)[k] == s.clients[i].name,
{
    registry_laws::law_found(s.clients, ClientId(k), 0);
    registry_laws::law_names(s.clients, ClientId(k));
    if 0 <= i < s.clients.len() && s.clients[i].id == ClientId(k) && (forall|j: int|
        i < j < s.clients.len() ==> (#[trigger] s.clients[j]).id != ClientId(k)) {
        registry_laws::law_name_is_listed(s.clients, i);
    }
}

} // verus!
