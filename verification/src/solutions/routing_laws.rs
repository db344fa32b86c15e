//! What holds of a server that routes texts, over any number of operations.
use super::citrini_repplinger_vassoille as routing;
use super::citrini_repplinger_vassoille::ServerView;
use super::relay::StoredView;
use super::{registry, registry_laws, relay, relay_laws};
use crate::messages::{
    ClientError, ClientId, ClientMessageView, ClientReplyView, FullyQualifiedMessageView,
    OutgoingView, ServerId, ServerMessageView, ServerReplyView,
};
use vstd::prelude::*;

verus! {

/// An operation of a server.
pub enum Event {
    Register { id: ClientId, name: Seq<char> },
    Request { src: ClientId, seqid: u128, workproof_holds: bool },
    Poll { client: ClientId },
    Client { src: ClientId, msg: ClientMessageView },
    Server { message: ServerMessageView },
}

/// The server after an operation.
pub open spec fn step(s: ServerView, limit: nat, event: Event) -> ServerView {
    match event {
        Event::Register { id, name } => routing::registered(s, id, name),
        Event::Request { src, seqid, workproof_holds } => routing::request(
            s,
            src,
            seqid,
            workproof_holds,
        ).0,
        Event::Poll { client } => routing::poll(s, client).0,
        Event::Client { src, msg } => routing::client_message(s, limit, src, msg).0,
        Event::Server { message } => routing::server_message(s, limit, message).0,
    }
}

/// The server after several operations.
pub open spec fn run(s: ServerView, limit: nat, events: Seq<Event>) -> ServerView
    decreases events.len(),
{
    if events.len() == 0 {
        s
    } else {
        step(run(s, limit, events.drop_last()), limit, events.last())
    }
}

/// Whether a server came from another state of it by operations: it is the
/// same server, its clients followed, it forgot no route, no client of another
/// server, and no stored text whose destination is not known.
pub open spec fn follows(before: ServerView, after: ServerView) -> bool {
    &&& after.id == before.id
    &&& registry_laws::follows(before.clients, after.clients)
    &&& before.routes.is_prefix_of(after.routes)
    &&& forall|id: ClientId|
        !after.remote_clients.contains_key(id.0) ==> (#[trigger] relay_laws::stored_for(
            before.stored,
            id,
        )).is_prefix_of(relay_laws::stored_for(after.stored, id))
    &&& forall|k: u128| #[trigger]
        before.remote_clients.contains_key(k) ==> after.remote_clients.contains_key(k)
}

/// What follows what follows a server follows it too.
pub proof fn law_follows_is_transitive(a: ServerView, b: ServerView, c: ServerView)
    requires
        follows(a, b),
        follows(b, c),
    ensures
        follows(a, c),
{
    registry_laws::law_follows_is_transitive(a.clients, b.clients, c.clients);
    assert(a.routes =~= b.routes.take(a.routes.len() as int));
    assert(a.routes =~= c.routes.take(a.routes.len() as int));
    assert forall|id: ClientId| !c.remote_clients.contains_key(id.0) implies (
    #[trigger] relay_laws::stored_for(a.stored, id)).is_prefix_of(relay_laws::stored_for(c.stored, id)) by {
        let (x, y, z) = (
            relay_laws::stored_for(a.stored, id),
            relay_laws::stored_for(b.stored, id),
            relay_laws::stored_for(c.stored, id),
        );
        assert(x =~= y.take(x.len() as int));
        assert(y =~= z.take(y.len() as int));
        assert(x =~= z.take(x.len() as int));
    }
}

/// A text keeps a server in order, and what comes follows it.
pub proof fn law_text_keeps(
    s: ServerView,
    limit: nat,
    src: ClientId,
    dest: ClientId,
    content: Seq<char>,
)
    ensures
        follows(s, routing::text(s, limit, src, dest, content).0),
        routing::in_order(s, limit) ==> routing::in_order(
            routing::text(s, limit, src, dest, content).0,
            limit,
        ),
{
    let after = routing::text(s, limit, src, dest, content).0;
    registry::law_delivery_keeps(s.clients, limit, src, dest, content);
    assert(after.routes == s.routes);
    assert forall|id: ClientId| (#[trigger] relay_laws::stored_for(s.stored, id)).is_prefix_of(
        relay_laws::stored_for(after.stored, id),
    ) by {
        relay_laws::lemma_stored_push(s.stored, StoredView { src, dst: dest, content }, id);
    }
    if routing::in_order(s, limit) {
        assert forall|k: u128| #[trigger]
            after.remote_clients.contains_key(k) implies routing::route(
            after,
            after.remote_clients[k].server,
        ) is Some by {
            assert(s.remote_clients.contains_key(k));
        }
    }
}

/// A text for several clients keeps what a text for one of them keeps.
pub proof fn law_texts_keep(
    s: ServerView,
    limit: nat,
    src: ClientId,
    dest: Seq<ClientId>,
    content: Seq<char>,
)
    ensures
        follows(s, routing::texts(s, limit, src, dest, content).0),
        routing::in_order(s, limit) ==> routing::in_order(
            routing::texts(s, limit, src, dest, content).0,
            limit,
        ),
    decreases dest.len(),
{
    if dest.len() > 0 {
        let before = routing::texts(s, limit, src, dest.drop_last(), content).0;
        let after = routing::texts(s, limit, src, dest, content).0;
        law_texts_keep(s, limit, src, dest.drop_last(), content);
        law_text_keeps(before, limit, src, dest.last(), content);
        law_follows_is_transitive(s, before, after);
    }
}

/// An operation keeps a server in order, and what comes follows it.
pub proof fn law_step(s: ServerView, limit: nat, event: Event)
    ensures
        follows(s, step(s, limit, event)),
        routing::in_order(s, limit) ==> routing::in_order(step(s, limit, event), limit),
{
    let after = step(s, limit, event);
    match event {
        Event::Register { id, name } => {},
        Event::Request { src, seqid, workproof_holds } => {
            registry::law_position(s.clients, src);
            registry::law_request_keeps(s.clients, limit, src, seqid, workproof_holds);
        },
        Event::Poll { client } => {
            registry::law_poll_keeps(s.clients, limit, client);
        },
        Event::Client { src, msg } => {
            match msg {
                ClientMessageView::Text { dest, content } => {
                    law_text_keeps(s, limit, src, dest, content);
                },
                ClientMessageView::MText { dest, content } => {
                    law_texts_keep(s, limit, src, dest, content);
                },
            }
        },
        Event::Server { message } => {
            match message {
                ServerMessageView::Announce { route, clients } => {
                    if route.len() > 0 {
                        assert forall|id: ClientId|
                            !after.remote_clients.contains_key(id.0) implies (
                        #[trigger] relay_laws::stored_for(s.stored, id)).is_prefix_of(
                            relay_laws::stored_for(after.stored, id),
                        ) by {
                            relay_laws::lemma_stored_kept(s.stored, clients, id);
                        }
                    }
                    if routing::in_order(s, limit) {
                        routing::law_announcement_keeps(s, limit, route, clients);
                    }
                },
                ServerMessageView::Message(msg) => {
                    registry::law_deliveries_keep(
                        s.clients,
                        limit,
                        msg.src,
                        msg.dsts,
                        msg.content,
                    );
                },
            }
        },
    }
    if routing::in_order(s, limit) && !(event is Client || event is Server && event->message
        is Announce) {
        assert forall|k: u128| #[trigger]
            after.remote_clients.contains_key(k) implies routing::route(
            after,
            after.remote_clients[k].server,
        ) is Some by {
            assert(s.remote_clients.contains_key(k));
        }
    }
}

/// Whatever a server does, it stays in order, and what comes follows what was.
pub proof fn law_run(s: ServerView, limit: nat, events: Seq<Event>)
    ensures
        follows(s, run(s, limit, events)),
        routing::in_order(s, limit) ==> routing::in_order(run(s, limit, events), limit),
    decreases events.len(),
{
    if events.len() > 0 {
        let before = run(s, limit, events.drop_last());
        law_run(s, limit, events.drop_last());
        law_step(before, limit, events.last());
        law_follows_is_transitive(s, before, run(s, limit, events));
    }
}

/// A number that a server accepted from a client is refused from then on, and
/// so is every lower one, whatever the server does in between.
pub proof fn law_number_is_used_once(
    s: ServerView,
    limit: nat,
    src: ClientId,
    accepted: u128,
    events: Seq<Event>,
    seqid: u128,
)
    requires
        seqid <= accepted,
        routing::request(s, src, accepted, true).1 is None,
    ensures
        ({
            let later = run(routing::request(s, src, accepted, true).0, limit, events);
            routing::request(later, src, seqid, true) == (later, Some(ClientError::SequenceError))
        }),
{
    let after = routing::request(s, src, accepted, true).0;
    let later = run(after, limit, events);
    law_run(after, limit, events);
    registry_laws::law_number_is_used_once(s.clients, src, accepted, later.clients, seqid);
}

/// The numbers that a server accepts from a client increase.
pub proof fn law_accepted_numbers_increase(
    s: ServerView,
    limit: nat,
    src: ClientId,
    first: u128,
    events: Seq<Event>,
    second: u128,
)
    requires
        routing::request(s, src, first, true).1 is None,
        routing::request(
            run(routing::request(s, src, first, true).0, limit, events),
            src,
            second,
            true,
        ).1 is None,
    ensures
        first < second,
{
    if second <= first {
        law_number_is_used_once(s, limit, src, first, events, second);
    }
}

/// A client that is registered stays registered and keeps its name, whatever
/// the server does.
pub proof fn law_client_stays(
    s: ServerView,
    limit: nat,
    id: ClientId,
    name: Seq<char>,
    events: Seq<Event>,
)
    requires
        !registry::is_local(s.clients, id),
    ensures
        ({
            let later = run(routing::registered(s, id, name), limit, events);
            &&& registry::is_local(later.clients, id)
            &&& registry_laws::name(later.clients, id) == name
        }),
{
    let after = routing::registered(s, id, name);
    assert(after.clients.drop_last() =~= s.clients);
    law_run(after, limit, events);
    registry_laws::law_stays(after.clients, run(after, limit, events).clients, id);
}

/// The reply to a text: it is delivered to a registered client whose mailbox
/// has room, refused if that is full, transferred if the destination is a
/// client of another server, and delayed exactly if the destination is unknown.
/// Only a text that is delivered or delayed changes the server.
pub proof fn law_text(
    s: ServerView,
    limit: nat,
    src: ClientId,
    dest: ClientId,
    content: Seq<char>,
)
    ensures
        ({
            let (after, reply) = routing::text(s, limit, src, dest, content);
            let local = registry::is_local(s.clients, dest);
            let full = registry_laws::mailbox(s.clients, dest).len() >= limit;
            let remote = s.remote_clients.contains_key(dest.0);
            &&& reply is Delivered <==> local && !full
            &&& reply == ClientReplyView::Error(ClientError::BoxFull(dest)) <==> local && full
            &&& reply is Transfer <==> !local && remote
            &&& reply is Delayed <==> !local && !remote
            &&& reply is Delivered ==> registry_laws::mailbox(after.clients, dest)
                == registry_laws::mailbox(s.clients, dest).push((src, content))
            &&& reply is Delayed ==> after.stored == s.stored.push(
                StoredView { src, dst: dest, content },
            )
            &&& reply is Error || reply is Transfer ==> after == s
        }),
{
    registry_laws::law_delivery(s.clients, limit, src, dest, content, dest);
}

/// A text for several clients gets one reply for each, and each is handled as
/// a text of its own after those before it.
pub proof fn law_texts(
    s: ServerView,
    limit: nat,
    src: ClientId,
    dest: Seq<ClientId>,
    content: Seq<char>,
)
    ensures
        routing::texts(s, limit, src, dest, content).1.len() == dest.len(),
        forall|i: int|
            0 <= i < dest.len() ==> #[trigger] routing::texts(s, limit, src, dest, content).1[i]
                == routing::text(
                routing::texts(s, limit, src, dest.take(i), content).0,
                limit,
                src,
                dest[i],
                content,
            ).1,
    decreases dest.len(),
{
    if dest.len() > 0 {
        let front = dest.drop_last();
        law_texts(s, limit, src, front, content);
        let replies = routing::texts(s, limit, src, dest, content).1;
        let before = routing::texts(s, limit, src, front, content).1;
        assert forall|i: int| 0 <= i < dest.len() implies #[trigger] replies[i] == routing::text(
            routing::texts(s, limit, src, dest.take(i), content).0,
            limit,
            src,
            dest[i],
            content,
        ).1 by {
            if i < front.len() {
                assert(replies[i] == before[i]);
                assert(front.take(i) =~= dest.take(i));
            } else {
                assert(front =~= dest.take(i));
            }
        }
    }
}

/// A way that was found once does not change, whatever the server does.
pub proof fn law_way_stays(
    s: ServerView,
    limit: nat,
    destination: ServerId,
    events: Seq<Event>,
)
    requires
        routing::route(s, destination) is Some,
    ensures
        routing::route(run(s, limit, events), destination) == routing::route(s, destination),
{
    let later = run(s, limit, events);
    law_run(s, limit, events);
    assert(later.routes.take(s.routes.len() as int) =~= s.routes);
    routing::law_first_route_stays(s.routes, later.routes, destination);
    routing::law_first_route(s.routes, destination);
}

/// After an announcement there is a way to every server on its route.
pub proof fn law_announced_way(
    s: ServerView,
    route: Seq<ServerId>,
    clients: Map<u128, Seq<char>>,
    destination: ServerId,
)
    requires
        route.contains(destination),
    ensures
        routing::route(routing::announced(s, route, clients).0, destination) is Some,
{
    let after = routing::announced(s, route, clients).0;
    assert(after.routes.last() == route);
}

/// If no route to a server was known, the way to it after an announcement goes
/// from this server back along the announced route, as far as that server.
pub proof fn law_new_way(
    s: ServerView,
    route: Seq<ServerId>,
    clients: Map<u128, Seq<char>>,
    destination: ServerId,
)
    requires
        route.contains(destination),
        routing::route(s, destination) is None,
    ensures
        routing::route(routing::announced(s, route, clients).0, destination) == Some(
            seq![s.id] + routing::up_to(route.reverse(), destination),
        ),
{
    let after = routing::announced(s, route, clients).0;
    assert(after.routes.drop_last() =~= s.routes);
}

/// An announcement without a route changes nothing.
pub proof fn law_empty_route(s: ServerView, limit: nat, clients: Map<u128, Seq<char>>)
    ensures
        routing::server_message(s, limit, ServerMessageView::Announce { route: seq![], clients })
            == (s, ServerReplyView::EmptyRoute),
{
}

/// Once a client has been announced, a text for it is transferred to the last
/// server of the announced route.
pub proof fn law_announced_client_gets_transfers(
    s: ServerView,
    limit: nat,
    route: Seq<ServerId>,
    clients: Map<u128, Seq<char>>,
    src: ClientId,
    dest: ClientId,
    content: Seq<char>,
)
    requires
        route.len() > 0,
        clients.contains_key(dest.0),
        !registry::is_local(s.clients, dest),
    ensures
        ({
            let after = routing::announced(s, route, clients).0;
            routing::text(after, limit, src, dest, content) == (
                after,
                ClientReplyView::Transfer(
                    route.last(),
                    ServerMessageView::Message(routing::transferred(after, src, dest, content)),
                ),
            )
        }),
{
    let after = routing::announced(s, route, clients).0;
    registry_laws::law_delivery(after.clients, limit, src, dest, content, dest);
    assert(after.remote_clients.contains_key(dest.0));
}

/// A client that was announced stays known, whatever the server does: a text
/// for it is never delayed again.
pub proof fn law_announced_client_stays(
    s: ServerView,
    limit: nat,
    route: Seq<ServerId>,
    clients: Map<u128, Seq<char>>,
    events: Seq<Event>,
    src: ClientId,
    dest: ClientId,
    content: Seq<char>,
)
    requires
        route.len() > 0,
        clients.contains_key(dest.0),
    ensures
        ({
            let later = run(routing::announced(s, route, clients).0, limit, events);
            routing::text(later, limit, src, dest, content).1 !is Delayed
        }),
{
    let after = routing::announced(s, route, clients).0;
    law_run(after, limit, events);
    assert(after.remote_clients.contains_key(dest.0));
    law_text(run(after, limit, events), limit, src, dest, content);
}

/// A text that was delayed goes out when its destination is announced for the
/// first time, whatever the server does in between: its destination, sender
/// and content are in the reply to the announcement.
pub proof fn law_delayed_text_goes_out(
    s: ServerView,
    limit: nat,
    src: ClientId,
    dest: ClientId,
    content: Seq<char>,
    events: Seq<Event>,
    route: Seq<ServerId>,
    clients: Map<u128, Seq<char>>,
)
    requires
        routing::text(s, limit, src, dest, content).1 is Delayed,
        !run(
            routing::text(s, limit, src, dest, content).0,
            limit,
            events,
        ).remote_clients.contains_key(dest.0),
        route.len() > 0,
        clients.contains_key(dest.0),
    ensures
        ({
            let later = run(routing::text(s, limit, src, dest, content).0, limit, events);
            let (after, reply) = routing::announced(later, route, clients);
            &&& reply matches ServerReplyView::Outgoing(list)
            &&& list.contains(routing::outgoing(after, StoredView { src, dst: dest, content }))
        }),
{
    let m = StoredView { src, dst: dest, content };
    let delayed = routing::text(s, limit, src, dest, content).0;
    let later = run(delayed, limit, events);
    let after = routing::announced(later, route, clients).0;
    law_text(s, limit, src, dest, content);
    law_run(delayed, limit, events);
    relay_laws::lemma_stored_push(s.stored, m, dest);
    let old = relay_laws::stored_for(delayed.stored, dest);
    let new = relay_laws::stored_for(later.stored, dest);
    assert(old =~= new.take(old.len() as int));
    assert(old[old.len() - 1] == m);
    relay_laws::lemma_due(later.stored, clients, dest, old.len() - 1);
    let list = relay::due(later.stored, clients);
    let at = list.index_of(m);
    assert(routing::sent(after, list)[at] == routing::outgoing(after, m));
}

/// Every message that goes out with an announcement is for a client of that
/// announcement that was not known before.
pub proof fn law_only_new_clients_get_texts(
    s: ServerView,
    limit: nat,
    route: Seq<ServerId>,
    clients: Map<u128, Seq<char>>,
)
    requires
        routing::in_order(s, limit),
    ensures
        routing::announced(s, route, clients).1 matches ServerReplyView::Outgoing(list) ==> forall|
            i: int,
        |
            0 <= i < list.len() ==> {
                let dest = (#[trigger] list[i]).message.dsts[0].0.0;
                clients.contains_key(dest) && !s.remote_clients.contains_key(dest)
            },
{
    let (after, reply) = routing::announced(s, route, clients);
    if let ServerReplyView::Outgoing(list) = reply {
        let texts = relay::due(s.stored, clients);
        assert forall|i: int| 0 <= i < list.len() implies {
            let dest = (#[trigger] list[i]).message.dsts[0].0.0;
            clients.contains_key(dest) && !s.remote_clients.contains_key(dest)
        } by {
            assert(list[i] == routing::outgoing(after, texts[i]));
            relay::lemma_due(s.stored, clients, i);
            let j = s.stored.index_of(texts[i]);
            assert(!s.remote_clients.contains_key(s.stored[j].dst.0));
        }
    }
}

/// Texts go out once: after a client was announced, no announcement gives a
/// message for it any more, whatever the server does in between.
pub proof fn law_texts_go_out_once(
    s: ServerView,
    limit: nat,
    route: Seq<ServerId>,
    clients: Map<u128, Seq<char>>,
    dest: ClientId,
    events: Seq<Event>,
    next_route: Seq<ServerId>,
    next_clients: Map<u128, Seq<char>>,
)
    requires
        routing::in_order(s, limit),
        route.len() > 0,
        clients.contains_key(dest.0),
    ensures
        ({
            let later = run(routing::announced(s, route, clients).0, limit, events);
            routing::announced(later, next_route, next_clients).1 matches
                ServerReplyView::Outgoing(list) ==> forall|i: int|
                0 <= i < list.len() ==> (#[trigger] list[i]).message.dsts[0].0 != dest
        }),
{
    let after = routing::announced(s, route, clients).0;
    let later = run(after, limit, events);
    routing::law_announcement_keeps(s, limit, route, clients);
    law_run(after, limit, events);
    assert(after.remote_clients.contains_key(dest.0));
    law_only_new_clients_get_texts(later, limit, next_route, next_clients);
}

/// A text from another server that is not for registered clients alone, and to
/// whose first destination there is a way, is forwarded whole to the far end of
/// the route, and changes nothing.
pub proof fn law_text_is_forwarded(s: ServerView, limit: nat, msg: FullyQualifiedMessageView)
    requires
        msg.dsts.len() > 0,
        !registry::all_local(s.clients, msg.dsts),
        routing::route(s, msg.dsts[0].1) is Some,
    ensures
        routing::deliverable(s, msg),
        routing::server_message(s, limit, ServerMessageView::Message(msg)) == (
            s,
            ServerReplyView::Outgoing(
                seq![
                    OutgoingView { nexthop: routing::far_end(s, msg.dsts[0].1), message: msg },
                ],
            ),
        ),
{
}

/// A text from another server for a registered client goes into the mailbox of
/// that client, unless it is full.
pub proof fn law_text_is_delivered(s: ServerView, limit: nat, msg: FullyQualifiedMessageView)
    requires
        msg.dsts.len() == 1,
        registry::is_local(s.clients, msg.dsts[0].0),
    ensures
        routing::deliverable(s, msg),
        ({
            let (after, reply) = routing::server_message(
                s,
                limit,
                ServerMessageView::Message(msg),
            );
            let dest = msg.dsts[0].0;
            let before = registry_laws::mailbox(s.clients, dest);
            &&& reply == ServerReplyView::Outgoing(seq![])
            &&& registry_laws::mailbox(after.clients, dest) == if before.len() < limit {
                before.push((msg.src, msg.content))
            } else {
                before
            }
        }),
{
    let dest = msg.dsts[0].0;
    registry_laws::law_delivery(s.clients, limit, msg.src, dest, msg.content, dest);
    assert(registry::delivered_to(s.clients, limit, msg.src, msg.dsts.drop_last(), msg.content)
        == s.clients);
}

/// The listed users are the registered clients and the clients of other
/// servers, and nobody else.
pub proof fn law_users(s: ServerView, id: ClientId)
    ensures
        routing::users(s).contains_key(id.0) <==> registry::is_local(s.clients, id)
            || s.remote_clients.contains_key(id.0),
        s.remote_clients.contains_key(id.0) ==> routing::users(s)[id.0]
            == s.remote_clients[id.0].name,
{
    registry_laws::law_names(s.clients, id);
}

/// Who is listed stays listed, whatever the server does.
pub proof fn law_user_stays_listed(
    s: ServerView,
    limit: nat,
    id: ClientId,
    events: Seq<Event>,
)
    requires
        routing::users(s).contains_key(id.0),
    ensures
        routing::users(run(s, limit, events)).contains_key(id.0),
{
    let later = run(s, limit, events);
    law_run(s, limit, events);
    law_users(s, id);
    law_users(later, id);
    if registry::is_local(s.clients, id) {
        registry_laws::law_stays(s.clients, later.clients, id);
    }
}

/// A client that has just been registered is listed under its name, unless
/// another server announced a client with the same identifier.
pub proof fn law_new_client_is_listed(s: ServerView, id: ClientId, name: Seq<char>)
    requires
        !s.remote_clients.contains_key(id.0),
    ensures
        routing::users(routing::registered(s, id, name)).contains_key(id.0),
        routing::users(routing::registered(s, id, name))[id.0] == name,
{
    let after = routing::registered(s, id, name);
    registry_laws::law_name_is_listed(after.clients, after.clients.len() - 1);
}

/// A client that has just been announced is listed under the announced name.
pub proof fn law_announced_client_is_listed(
    s: ServerView,
    route: Seq<ServerId>,
    clients: Map<u128, Seq<char>>,
    id: ClientId,
)
    requires
        route.len() > 0,
        clients.contains_key(id.0),
    ensures
        routing::users(routing::announced(s, route, clients).0).contains_key(id.0),
        routing::users(routing::announced(s, route, clients).0)[id.0] == clients[id.0],
{
    let after = routing::announced(s, route, clients).0;
    assert(after.remote_clients.contains_key(id.0));
    law_users(after, id);
}

} // verus!
