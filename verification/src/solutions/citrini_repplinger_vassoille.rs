//! A server that routes texts to the clients of other servers.
use super::registry;
use super::registry::{ClientView, Delivery};
use super::relay;
use super::relay::{ClientInfoView, StoredView};
use crate::messages;
use crate::messages::{
    ClientError, ClientId, ClientMessage, ClientMessageView, ClientPollReply, ClientPollReplyView,
    ClientReply, ClientReplyView, FullyQualifiedMessage, FullyQualifiedMessageView, Outgoing,
    OutgoingView, Sequence, ServerId, ServerMessage, ServerMessageView, ServerReply,
    ServerReplyView,
};
use crate::walk;
use std::collections::HashMap;
use vstd::prelude::*;

pub use super::registry::Client;
pub use super::relay::{ClientInfo, Stored};

verus! {

/// A server. The mailbox of each of its clients holds up to `MAILBOX_SIZE`
/// texts.
pub struct Server<const MAILBOX_SIZE: usize> {
    id: ServerId,
    clients: Vec<Client>,
    routes: Vec<Vec<ServerId>>,
    stored: Vec<Stored>,
    remote_clients: HashMap<u128, ClientInfo>,
}

/// What a [`Server`] knows.
pub struct ServerView {
    /// Its identifier.
    pub id: ServerId,
    /// The clients that are registered on it.
    pub clients: Seq<ClientView>,
    /// The routes that were announced to it, in order.
    pub routes: Seq<Seq<ServerId>>,
    /// The texts whose destination was not known, in order.
    pub stored: Seq<StoredView>,
    /// The clients of other servers, by the number of their identifier.
    pub remote_clients: Map<u128, ClientInfoView>,
}

impl<const MAILBOX_SIZE: usize> View for Server<MAILBOX_SIZE> {
    type V = ServerView;

    closed spec fn view(&self) -> ServerView {
        ServerView {
            id: self.id,
            clients: registry::client_views(self.clients@),
            routes: self.routes@.map_values(|r: Vec<ServerId>| r@),
            stored: relay::stored_views(self.stored@),
            remote_clients: relay::info_views(self.remote_clients@),
        }
    }
}

/// Where the first route with a server on it stands.
pub open spec fn first_route(routes: Seq<Seq<ServerId>>, destination: ServerId) -> Option<nat>
    decreases routes.len(),
{
    if routes.len() == 0 {
        None
    } else {
        match first_route(routes.drop_last(), destination) {
            Some(i) => Some(i),
            None => if routes.last().contains(destination) {
                Some((routes.len() - 1) as nat)
            } else {
                None
            },
        }
    }
}

/// The first announced route with a server on it.
pub open spec fn found(s: ServerView, destination: ServerId) -> Option<Seq<ServerId>> {
    match first_route(s.routes, destination) {
        Some(i) => Some(s.routes[i as int]),
        None => None,
    }
}

/// The servers of a way up to the first place where `destination` stands.
pub open spec fn up_to(way: Seq<ServerId>, destination: ServerId) -> Seq<ServerId> {
    way.take(way.index_of_first(destination)->0 + 1)
}

/// The way to a server: from this server back along the first announced route
/// with that server on it, as far as that server.
pub open spec fn route(s: ServerView, destination: ServerId) -> Option<Seq<ServerId>> {
    match found(s, destination) {
        Some(announced) => Some(seq![s.id] + up_to(announced.reverse(), destination)),
        None => None,
    }
}

/// The far end of the first announced route with a server on it: the server
/// that the route starts at.
pub open spec fn far_end(s: ServerView, destination: ServerId) -> ServerId {
    found(s, destination)->0[0]
}

/// Whether a server is in order: its mailboxes keep to their limit, there is a
/// way to the server of each remote client, and no text waits for a client
/// that is known.
pub open spec fn in_order(s: ServerView, limit: nat) -> bool {
    &&& registry::bounded(s.clients, limit)
    &&& forall|k: u128| #[trigger]
        s.remote_clients.contains_key(k) ==> route(s, s.remote_clients[k].server) is Some
    &&& forall|i: int|
        0 <= i < s.stored.len() ==> !s.remote_clients.contains_key((#[trigger] s.stored[i]).dst.0)
}

/// A text for the client of another server, with the far end of the route to
/// it.
pub open spec fn transferred(
    s: ServerView,
    src: ClientId,
    dest: ClientId,
    content: Seq<char>,
) -> FullyQualifiedMessageView {
    let server = s.remote_clients[dest.0].server;
    FullyQualifiedMessageView {
        src,
        srcsrv: s.id,
        dsts: seq![(dest, far_end(s, server))],
        content,
    }
}

/// The server after a text of one of its clients, and the reply.
pub open spec fn text(
    s: ServerView,
    limit: nat,
    src: ClientId,
    dest: ClientId,
    content: Seq<char>,
) -> (ServerView, ClientReplyView) {
    let (clients, delivery) = registry::delivered(s.clients, limit, src, dest, content);
    match delivery {
        Delivery::Done => (ServerView { clients, ..s }, ClientReplyView::Delivered),
        Delivery::BoxFull => (s, ClientReplyView::Error(ClientError::BoxFull(dest))),
        Delivery::NotLocal => if s.remote_clients.contains_key(dest.0) {
            (
                s,
                ClientReplyView::Transfer(
                    s.remote_clients[dest.0].server,
                    ServerMessageView::Message(transferred(s, src, dest, content)),
                ),
            )
        } else {
            (
                ServerView { stored: s.stored.push(StoredView { src, dst: dest, content }), ..s },
                ClientReplyView::Delayed,
            )
        },
    }
}

/// The server after a text for several clients, one after the other, and the
/// replies.
pub open spec fn texts(
    s: ServerView,
    limit: nat,
    src: ClientId,
    dest: Seq<ClientId>,
    content: Seq<char>,
) -> (ServerView, Seq<ClientReplyView>)
    decreases dest.len(),
{
    if dest.len() == 0 {
        (s, seq![])
    } else {
        let (before, replies) = texts(s, limit, src, dest.drop_last(), content);
        let (after, reply) = text(before, limit, src, dest.last(), content);
        (after, replies.push(reply))
    }
}

/// The server after a message of one of its clients, and the replies.
pub open spec fn client_message(
    s: ServerView,
    limit: nat,
    src: ClientId,
    msg: ClientMessageView,
) -> (ServerView, Seq<ClientReplyView>) {
    match msg {
        ClientMessageView::Text { dest, content } => {
            let (after, reply) = text(s, limit, src, dest, content);
            (after, seq![reply])
        },
        ClientMessageView::MText { dest, content } => texts(s, limit, src, dest, content),
    }
}

/// What goes out for a stored text whose destination is a client of another
/// server.
pub open spec fn outgoing(s: ServerView, m: StoredView) -> OutgoingView {
    OutgoingView {
        nexthop: route(s, s.remote_clients[m.dst.0].server)->0[1],
        message: transferred(s, m.src, m.dst, m.content),
    }
}

/// What goes out for stored texts.
pub open spec fn sent(s: ServerView, stored: Seq<StoredView>) -> Seq<OutgoingView> {
    stored.map_values(|m: StoredView| outgoing(s, m))
}

/// The server after an announcement, and the reply: the texts that waited for
/// the announced clients go out and wait no longer.
pub open spec fn announced(
    s: ServerView,
    route: Seq<ServerId>,
    clients: Map<u128, Seq<char>>,
) -> (ServerView, ServerReplyView) {
    if route.len() == 0 {
        (s, ServerReplyView::EmptyRoute)
    } else {
        let after = ServerView {
            routes: s.routes.push(route),
            remote_clients: s.remote_clients.union_prefer_right(relay::infos(clients, route.last())),
            stored: relay::kept(s.stored, clients),
            ..s
        };
        (after, ServerReplyView::Outgoing(sent(after, relay::due(s.stored, clients))))
    }
}

/// Whether a server knows what to do with a text from another server: all
/// destinations are clients of its own, or there is a way to the server of the
/// first one.
pub open spec fn deliverable(s: ServerView, msg: FullyQualifiedMessageView) -> bool {
    &&& msg.dsts.len() > 0
    &&& registry::all_local(s.clients, msg.dsts) || route(s, msg.dsts[0].1) is Some
}

/// The server after a text from another server, and the reply: the text goes
/// into the mailboxes of its destinations, if all of them are clients of this
/// server, and otherwise to the far end of the route to the server of the
/// first one.
pub open spec fn forwarded(s: ServerView, limit: nat, msg: FullyQualifiedMessageView) -> (
    ServerView,
    ServerReplyView,
) {
    if registry::all_local(s.clients, msg.dsts) {
        (
            ServerView {
                clients: registry::delivered_to(s.clients, limit, msg.src, msg.dsts, msg.content),
                ..s
            },
            ServerReplyView::Outgoing(seq![]),
        )
    } else {
        let nexthop = far_end(s, msg.dsts[0].1);
        (s, ServerReplyView::Outgoing(seq![OutgoingView { nexthop, message: msg }]))
    }
}

/// The server after a message from another server, and the reply.
pub open spec fn server_message(s: ServerView, limit: nat, msg: ServerMessageView) -> (
    ServerView,
    ServerReplyView,
) {
    match msg {
        ServerMessageView::Announce { route, clients } => announced(s, route, clients),
        ServerMessageView::Message(msg) => forwarded(s, limit, msg),
    }
}

/// The server after a request, and why it was refused if it was.
pub open spec fn request(
    s: ServerView,
    src: ClientId,
    seqid: u128,
    workproof_holds: bool,
) -> (ServerView, Option<ClientError>) {
    let (clients, refusal) = registry::sequenced(s.clients, src, seqid, workproof_holds);
    (ServerView { clients, ..s }, refusal)
}

/// The server after a client polled, and the answer.
pub open spec fn poll(s: ServerView, client_id: ClientId) -> (ServerView, ClientPollReplyView) {
    let (clients, answer) = registry::polled(s.clients, client_id);
    (ServerView { clients, ..s }, answer)
}

/// The server after a client was registered.
pub open spec fn registered(s: ServerView, id: ClientId, name: Seq<char>) -> ServerView {
    ServerView { clients: s.clients.push(registry::new_client(id, name)), ..s }
}

/// The names of all clients that can be reached, by the number of their
/// identifier. A client that another server announced goes by the name that
/// came with the announcement.
pub open spec fn users(s: ServerView) -> Map<u128, Seq<char>> {
    registry::client_names(s.clients).union_prefer_right(
        relay::remote_names(s.remote_clients),
    )
}

/// The first route with a server on it has that server on it, and no earlier
/// one has.
pub proof fn law_first_route(routes: Seq<Seq<ServerId>>, destination: ServerId)
    ensures
        match first_route(routes, destination) {
            Some(i) => {
                &&& i < routes.len()
                &&& routes[i as int].contains(destination)
                &&& forall|j: int| 0 <= j < i ==> !(#[trigger] routes[j]).contains(destination)
            },
            None => forall|j: int|
                0 <= j < routes.len() ==> !(#[trigger] routes[j]).contains(destination),
        },
    decreases routes.len(),
{
    if routes.len() > 0 {
        let front = routes.drop_last();
        law_first_route(front, destination);
        assert forall|j: int| 0 <= j < front.len() implies #[trigger] routes[j] == front[j] by {}
    }
}

/// A route that is found among the first routes is found there among all.
proof fn lemma_first_route_prefix(routes: Seq<Seq<ServerId>>, destination: ServerId, n: int)
    requires
        0 <= n <= routes.len(),
        first_route(routes.take(n), destination) is Some,
    ensures
        first_route(routes, destination) == first_route(routes.take(n), destination),
    decreases routes.len(),
{
    if n < routes.len() {
        assert(routes.drop_last().take(n) =~= routes.take(n));
        lemma_first_route_prefix(routes.drop_last(), destination, n);
    } else {
        assert(routes.take(n) =~= routes);
    }
}

/// A route that was found once is found again when there are more routes.
pub proof fn law_first_route_stays(
    before: Seq<Seq<ServerId>>,
    after: Seq<Seq<ServerId>>,
    destination: ServerId,
)
    requires
        before.is_prefix_of(after),
        first_route(before, destination) is Some,
    ensures
        first_route(after, destination) == first_route(before, destination),
{
    assert(after.take(before.len() as int) =~= before);
    lemma_first_route_prefix(after, destination, before.len() as int);
}

/// The way to a server starts with this server, ends with the other one, and
/// is longer than one step. Its next server is the last one of the route that
/// was found.
pub proof fn law_way(s: ServerView, destination: ServerId)
    requires
        route(s, destination) is Some,
    ensures
        route(s, destination)->0.len() >= 2,
        route(s, destination)->0[0] == s.id,
        route(s, destination)->0.last() == destination,
        found(s, destination)->0.contains(destination),
        route(s, destination)->0[1] == found(s, destination)->0.last(),
{
    law_first_route(s.routes, destination);
    let route = found(s, destination)->0;
    let back = route.reverse();
    let j = route.index_of(destination);
    assert(back[route.len() - 1 - j] == destination);
    back.index_of_first_ensures(destination);
}

/// An announcement keeps a server in order.
pub proof fn law_announcement_keeps(
    s: ServerView,
    limit: nat,
    route: Seq<ServerId>,
    clients: Map<u128, Seq<char>>,
)
    requires
        in_order(s, limit),
    ensures
        in_order(announced(s, route, clients).0, limit),
{
    let after = announced(s, route, clients).0;
    if route.len() > 0 {
        assert(after.routes.take(s.routes.len() as int) =~= s.routes);
        assert(after.routes.drop_last() =~= s.routes);
        assert forall|k: u128| #[trigger] after.remote_clients.contains_key(k) implies self::route(
            after,
            after.remote_clients[k].server,
        ) is Some by {
            let server = after.remote_clients[k].server;
            if clients.contains_key(k) {
                assert(server == route.last());
                assert(route[route.len() - 1] == server);
                assert(after.routes.last().contains(server));
            } else {
                assert(s.remote_clients.contains_key(k));
                lemma_first_route_prefix(after.routes, server, s.routes.len() as int);
            }
        }
        assert forall|i: int|
            0 <= i < after.stored.len() implies !after.remote_clients.contains_key(
            (#[trigger] after.stored[i]).dst.0,
        ) by {
            relay::lemma_kept(s.stored, clients, i);
            let j = s.stored.index_of(after.stored[i]);
            assert(!s.remote_clients.contains_key(s.stored[j].dst.0));
        }
    }
}

/// The way back along a route, as far as `destination`.
fn way_back(id: ServerId, route: &Vec<ServerId>, destination: ServerId) -> (r: Vec<ServerId>)
    requires
        route@.contains(destination),
    ensures
        r@ == seq![id] + up_to(route@.reverse(), destination),
{
    let ghost back = route@.reverse();
    proof {
        let j = route@.index_of(destination);
        assert(back[route@.len() - 1 - j] == destination);
        back.index_of_first_ensures(destination);
    }
    let mut way: Vec<ServerId> = Vec::new();
    way.push(id);
    let mut i: usize = route.len();
    assert(way@ =~= seq![id] + back.take(0));
    while i > 0
        invariant
            i <= route@.len(),
            back == route@.reverse(),
            back.index_of_first(destination) is Some,
            0 <= back.index_of_first(destination)->0 < back.len(),
            back[back.index_of_first(destination)->0] == destination,
            forall|j: int|
                0 <= j < back.index_of_first(destination)->0 ==> back[j] != destination,
            route@.len() - i <= back.index_of_first(destination)->0,
            way@ == seq![id] + back.take(route@.len() - i),
        decreases i,
    {
        i = i - 1;
        way.push(route[i]);
        assert(way@ =~= seq![id] + back.take(route@.len() - i));
        assert(back[route@.len() - 1 - i] == route@[i as int]);
        if route[i] == destination {
            return way;
        }
    }
    way
}

impl<const MAILBOX_SIZE: usize> Server<MAILBOX_SIZE> {
    /// Whether this server is in order.
    pub open spec fn wf(&self) -> bool {
        in_order(self@, MAILBOX_SIZE as nat)
    }

    /// A server without clients.
    pub fn new(id: ServerId) -> (r: Self)
        ensures
            r.wf(),
            r@ == (ServerView {
                id,
                clients: seq![],
                routes: seq![],
                stored: seq![],
                remote_clients: Map::empty(),
            }),
    {
        let r = Self {
            id,
            clients: Vec::new(),
            routes: Vec::new(),
            stored: Vec::new(),
            remote_clients: HashMap::new(),
        };
        assert(r@.clients =~= seq![]);
        assert(r@.routes =~= seq![]);
        assert(r@.stored =~= seq![]);
        assert(r@.remote_clients =~= Map::empty());
        r
    }

    /// Registers a client under an identifier.
    pub fn register_client(&mut self, id: ClientId, name: String)
        requires
            old(self).wf(),
        ensures
            final(self).wf(),
            final(self)@ == registered(old(self)@, id, name@),
    {
        let ghost before = self@;
        registry::add_client(&mut self.clients, id, name);
        assert(self@ == registered(before, id, name@));
    }

    /// Registers a client under a new random identifier, which is returned.
    pub fn register_local_client(&mut self, name: String) -> (r: ClientId)
        requires
            old(self).wf(),
        ensures
            registry::is_random(r.0),
            final(self).wf(),
            final(self)@ == registered(old(self)@, r, name@),
    {
        let client_id = ClientId(registry::random_id());
        self.register_client(client_id, name);
        client_id
    }

    /// The names of all clients that can be reached, by the number of their
    /// identifier.
    pub fn list_users(&self) -> (r: HashMap<u128, String>)
        ensures
            messages::names(r@) == users(self@),
    {
        broadcast use vstd::std_specs::hash::group_hash_axioms;

        let mut all = registry::users(&self.clients);
        let order = walk::walk(&self.remote_clients);
        let ghost local = messages::names(all@);
        let ghost listed = walk::entries(order@);
        let ghost named = walk::with_values(listed, |c: ClientInfo| c.name@);
        let mut i: usize = 0;
        assert(named.take(0) =~= seq![]);
        while i < order.len()
            invariant
                i <= order@.len(),
                listed == walk::entries(order@),
                named == walk::with_values(listed, |c: ClientInfo| c.name@),
                messages::names(all@) == walk::inserted(local, named.take(i as int)),
            decreases order@.len() - i,
        {
            let ghost sofar = messages::names(all@);
            let (id, info) = order[i];
            all.insert(id, info.name.clone());
            assert(messages::names(all@) =~= sofar.insert(id, info.name@));
            assert(named.take(i + 1).drop_last() =~= named.take(i as int));
            i = i + 1;
        }
        proof {
            assert(named.take(i as int) =~= named);
            let remote = self.remote_clients@.map_values(|c: ClientInfo| c.name@);
            walk::law_values(listed, self.remote_clients@, |c: ClientInfo| c.name@);
            walk::law_inserted(local, named, remote);
            assert(remote =~= relay::remote_names(self@.remote_clients));
        }
        all
    }

    /// Accepts a request and hands out its content, or refuses it: because the
    /// proof of work does not hold, because its client is not registered, or
    /// because its number is not above that of the last accepted one.
    pub fn handle_checked_message<A>(&mut self, sequence: Sequence<A>, workproof_holds: bool) -> (r:
        Result<A, ClientError>)
        requires
            old(self).wf(),
        ensures
            final(self).wf(),
            ({
                let (after, refusal) = request(
                    old(self)@,
                    sequence.src,
                    sequence.seqid,
                    workproof_holds,
                );
                &&& final(self)@ == after
                &&& r == registry::answer(sequence.content, refusal)
            }),
    {
        let ghost before = self@;
        proof {
            registry::law_request_keeps(
                before.clients,
                MAILBOX_SIZE as nat,
                sequence.src,
                sequence.seqid,
                workproof_holds,
            );
        }
        registry::open_request(&mut self.clients, sequence, workproof_holds)
    }

    /// Accepts or refuses a request. `verify_workproof` says whether the proof
    /// of work of a client holds.
    pub fn handle_sequenced_message<A, V: FnOnce(&ClientId, u128) -> bool>(
        &mut self,
        sequence: Sequence<A>,
        verify_workproof: V,
    ) -> (r: Result<A, ClientError>)
        requires
            old(self).wf(),
            call_requires(verify_workproof, (&sequence.src, sequence.workproof)),
        ensures
            final(self).wf(),
            exists|holds: bool|
                #![trigger call_ensures(
                    verify_workproof,
                    (&sequence.src, sequence.workproof),
                    holds,
                )]
                call_ensures(verify_workproof, (&sequence.src, sequence.workproof), holds) && ({
                    let (after, refusal) = request(
                        old(self)@,
                        sequence.src,
                        sequence.seqid,
                        holds,
                    );
                    &&& final(self)@ == after
                    &&& r == registry::answer(sequence.content, refusal)
                }),
    {
        let holds = verify_workproof(&sequence.src, sequence.workproof);
        self.handle_checked_message(sequence, holds)
    }

    /// Hands a client the oldest text of its mailbox.
    pub fn client_poll(&mut self, client_id: ClientId) -> (r: ClientPollReply)
        requires
            old(self).wf(),
        ensures
            final(self).wf(),
            (final(self)@, r@) == poll(old(self)@, client_id),
    {
        let ghost before = self@;
        proof {
            registry::law_poll_keeps(before.clients, MAILBOX_SIZE as nat, client_id);
        }
        let r = registry::poll(&mut self.clients, client_id);
        assert(self@ == poll(before, client_id).0);
        r
    }

    /// Finds the first announced route with a server on it.
    fn find_route(&self, destination: ServerId) -> (r: Option<usize>)
        ensures
            match r {
                Some(i) => first_route(self@.routes, destination) == Some(i as nat) && i
                    < self.routes@.len() && self.routes@[i as int]@ == found(
                    self@,
                    destination,
                )->0 && self.routes@[i as int]@.contains(destination),
                None => first_route(self@.routes, destination) is None,
            },
    {
        let ghost all = self@.routes;
        let mut i: usize = 0;
        while i < self.routes.len()
            invariant
                i <= self.routes@.len(),
                all == self@.routes,
                first_route(all.take(i as int), destination) is None,
            decreases self.routes@.len() - i,
        {
            assert(all.take(i + 1).drop_last() =~= all.take(i as int));
            assert(all[i as int] == self.routes@[i as int]@);
            if registry::is_on(&self.routes[i], destination) {
                proof {
                    lemma_first_route_prefix(all, destination, i + 1);
                }
                return Some(i);
            }
            i = i + 1;
        }
        assert(all.take(i as int) =~= all);
        None
    }

    /// The way to a server: this server first, and the other one last.
    pub fn route_to(&self, destination: ServerId) -> (r: Option<Vec<ServerId>>)
        ensures
            match r {
                Some(way) => {
                    &&& route(self@, destination) == Some(way@)
                    &&& way@[0] == self@.id
                    &&& way@.last() == destination
                },
                None => route(self@, destination) is None,
            },
    {
        match self.find_route(destination) {
            Some(i) => {
                proof {
                    law_way(self@, destination);
                }
                Some(way_back(self.id, &self.routes[i], destination))
            },
            None => None,
        }
    }

    /// The far end of the route to another server.
    fn end_of_route(&self, destination: ServerId) -> (r: ServerId)
        requires
            route(self@, destination) is Some,
        ensures
            r == far_end(self@, destination),
    {
        match self.find_route(destination) {
            Some(i) => self.routes[i][0],
            None => self.id,
        }
    }

    /// The server over which a client of another server was announced.
    pub fn get_remote_client_server(&self, client_id: ClientId) -> (r: Option<ServerId>)
        ensures
            r == (if self@.remote_clients.contains_key(client_id.0) {
                Some(self@.remote_clients[client_id.0].server)
            } else {
                None
            }),
    {
        relay::server_of(&self.remote_clients, client_id)
    }

    /// Handles a text of a client: it is delivered to a client of this server,
    /// unless its mailbox is full; it is to be transferred if its destination
    /// is a client of another server; and otherwise it is stored.
    pub fn handle_text_message(&mut self, src: ClientId, dest: ClientId, content: String) -> (r:
        ClientReply)
        requires
            old(self).wf(),
        ensures
            final(self).wf(),
            (final(self)@, r@) == text(old(self)@, MAILBOX_SIZE as nat, src, dest, content@),
    {
        let ghost before = self@;
        proof {
            registry::law_delivery_keeps(
                before.clients,
                MAILBOX_SIZE as nat,
                src,
                dest,
                content@,
            );
        }
        if registry::find(&self.clients, dest).is_some() {
            let delivery = registry::deliver(&mut self.clients, MAILBOX_SIZE, src, dest, content);
            assert(self@ == ServerView { clients: self@.clients, ..before });
            return match delivery {
                Delivery::Done => ClientReply::Delivered,
                _ => ClientReply::Error(ClientError::BoxFull(dest)),
            };
        }
        match self.get_remote_client_server(dest) {
            Some(id) => {
                let next_server = self.end_of_route(id);
                let mut dsts: Vec<(ClientId, ServerId)> = Vec::new();
                dsts.push((dest, next_server));
                let ghost whole = transferred(self@, src, dest, content@);
                let message = FullyQualifiedMessage { src, srcsrv: self.id, dsts, content };
                assert(message@.dsts =~= whole.dsts);
                ClientReply::Transfer(id, ServerMessage::Message(message))
            },
            None => {
                self.stored.push(Stored { src, dst: dest, content });
                assert(self@.stored =~= before.stored.push(self.stored@.last()@));
                ClientReply::Delayed
            },
        }
    }

    /// Handles a message of a client: a text for one client or for several.
    pub fn handle_client_message(&mut self, src: ClientId, msg: ClientMessage) -> (r: Vec<
        ClientReply,
    >)
        requires
            old(self).wf(),
        ensures
            final(self).wf(),
            (final(self)@, messages::reply_views(r@)) == client_message(
                old(self)@,
                MAILBOX_SIZE as nat,
                src,
                msg@,
            ),
    {
        let mut replies: Vec<ClientReply> = Vec::new();
        match msg {
            ClientMessage::Text { dest, content } => {
                let reply = self.handle_text_message(src, dest, content);
                replies.push(reply);
                assert(messages::reply_views(replies@) =~= seq![reply@]);
            },
            ClientMessage::MText { dest, content } => {
                let ghost before = self@;
                let mut i: usize = 0;
                assert(messages::reply_views(replies@) =~= seq![]);
                while i < dest.len()
                    invariant
                        i <= dest@.len(),
                        self.wf(),
                        (self@, messages::reply_views(replies@)) == texts(
                            before,
                            MAILBOX_SIZE as nat,
                            src,
                            dest@.take(i as int),
                            content@,
                        ),
                    decreases dest@.len() - i,
                {
                    let ghost sofar = messages::reply_views(replies@);
                    let reply = self.handle_text_message(src, dest[i], content.clone());
                    replies.push(reply);
                    assert(messages::reply_views(replies@) =~= sofar.push(reply@));
                    assert(dest@.take(i + 1).drop_last() =~= dest@.take(i as int));
                    i = i + 1;
                }
                assert(dest@.take(i as int) =~= dest@);
            },
        }
        replies
    }

    /// Takes out the stored texts for the given clients, and makes the messages
    /// that go out for them.
    fn hand_out(&mut self, clients: &HashMap<u128, String>) -> (r: Vec<Outgoing>)
        requires
            forall|k: u128| #[trigger]
                clients@.contains_key(k) ==> old(self)@.remote_clients.contains_key(k) && route(
                    old(self)@,
                    old(self)@.remote_clients[k].server,
                ) is Some,
        ensures
            final(self)@ == (ServerView {
                stored: relay::kept(old(self)@.stored, messages::names(clients@)),
                ..old(self)@
            }),
            messages::outgoing_views(r@) == sent(
                final(self)@,
                relay::due(old(self)@.stored, messages::names(clients@)),
            ),
    {
        let ghost named = messages::names(clients@);
        let ghost before = self@;
        let texts = relay::take_due(&mut self.stored, clients);
        let ghost all = relay::stored_views(texts@);
        let mut replies: Vec<Outgoing> = Vec::new();
        let mut i: usize = 0;
        assert(messages::outgoing_views(replies@) =~= sent(self@, all.take(0)));
        while i < texts.len()
            invariant
                i <= texts@.len(),
                all == relay::stored_views(texts@),
                all == relay::due(before.stored, named),
                named == messages::names(clients@),
                self@ == (ServerView { stored: self@.stored, ..before }),
                messages::outgoing_views(replies@) == sent(self@, all.take(i as int)),
                forall|k: u128| #[trigger]
                    clients@.contains_key(k) ==> before.remote_clients.contains_key(k) && route(
                        before,
                        before.remote_clients[k].server,
                    ) is Some,
            decreases texts@.len() - i,
        {
            let ghost sofar = messages::outgoing_views(replies@);
            proof {
                relay::lemma_due(before.stored, named, i as int);
                assert(all[i as int] == texts@[i as int]@);
                assert(clients@.contains_key(all[i as int].dst.0));
            }
            let outgoing = self.dispatch(&texts[i]);
            replies.push(outgoing);
            assert(messages::outgoing_views(replies@) =~= sofar.push(outgoing@));
            assert(sent(self@, all.take(i + 1)) =~= sent(self@, all.take(i as int)).push(
                outgoing@,
            ));
            i = i + 1;
        }
        assert(all.take(i as int) =~= all);
        replies
    }

    /// The message that goes out for a text whose destination is a client of
    /// another server.
    fn dispatch(&self, message: &Stored) -> (r: Outgoing)
        requires
            self@.remote_clients.contains_key(message@.dst.0),
            route(self@, self@.remote_clients[message@.dst.0].server) is Some,
        ensures
            r@ == outgoing(self@, message@),
    {
        let server = match self.get_remote_client_server(message.dst) {
            Some(server) => server,
            None => self.id,
        };
        let nexthop = match self.route_to(server) {
            Some(way) => {
                proof {
                    law_way(self@, server);
                }
                way[1]
            },
            None => self.id,
        };
        let dst = self.end_of_route(server);
        let mut dsts: Vec<(ClientId, ServerId)> = Vec::new();
        dsts.push((message.dst, dst));
        let r = Outgoing {
            nexthop,
            message: FullyQualifiedMessage {
                src: message.src,
                srcsrv: self.id,
                dsts,
                content: message.content.clone(),
            },
        };
        assert(r@.message.dsts =~= seq![(message.dst, dst)]);
        r
    }

    /// Whether this server knows what to do with a message from another one.
    pub fn can_handle(&self, msg: &ServerMessage) -> (r: bool)
        ensures
            r == (msg@ matches ServerMessageView::Message(m) ==> deliverable(self@, m)),
    {
        match msg {
            ServerMessage::Announce { .. } => true,
            ServerMessage::Message(m) => m.dsts.len() > 0 && (registry::are_local(
                &self.clients,
                &m.dsts,
            ) || self.find_route(m.dsts[0].1).is_some()),
        }
    }

    /// Handles a message from another server: the clients and the route of an
    /// announcement are stored, and the texts that wait for these clients go
    /// out; a text is delivered or forwarded.
    pub fn handle_server_message(&mut self, msg: ServerMessage) -> (r: ServerReply)
        requires
            old(self).wf(),
            msg@ matches ServerMessageView::Message(m) ==> deliverable(old(self)@, m),
        ensures
            final(self).wf(),
            (final(self)@, r@) == server_message(old(self)@, MAILBOX_SIZE as nat, msg@),
    {
        let ghost before = self@;
        match msg {
            ServerMessage::Announce { route, clients } => {
                if route.len() == 0 {
                    return ServerReply::EmptyRoute;
                }
                let ghost announced_route = route@;
                let last = route[route.len() - 1];
                relay::learn(&mut self.remote_clients, &clients, last);
                self.routes.push(route);
                proof {
                    let named = messages::names(clients@);
                    assert(self@.routes =~= before.routes.push(announced_route));
                    law_announcement_keeps(
                        before,
                        MAILBOX_SIZE as nat,
                        announced_route,
                        named,
                    );
                    let after = announced(before, announced_route, named).0;
                    assert forall|k: u128| #[trigger] clients@.contains_key(k) implies {
                        &&& self@.remote_clients.contains_key(k)
                        &&& self::route(self@, self@.remote_clients[k].server) is Some
                    } by {
                        assert(named.contains_key(k));
                        assert(after.remote_clients.contains_key(k));
                    }
                }
                let list = self.hand_out(&clients);
                assert(self@ == announced(
                    before,
                    announced_route,
                    messages::names(clients@),
                ).0);
                ServerReply::Outgoing(list)
            },
            ServerMessage::Message(msg) => {
                let mut list: Vec<Outgoing> = Vec::new();
                if registry::are_local(&self.clients, &msg.dsts) {
                    proof {
                        registry::law_deliveries_keep(
                            before.clients,
                            MAILBOX_SIZE as nat,
                            msg.src,
                            msg.dsts@,
                            msg.content@,
                        );
                    }
                    registry::deliver_to(
                        &mut self.clients,
                        MAILBOX_SIZE,
                        msg.src,
                        &msg.dsts,
                        &msg.content,
                    );
                    assert(messages::outgoing_views(list@) =~= seq![]);
                } else {
                    let nexthop = self.end_of_route(msg.dsts[0].1);
                    list.push(Outgoing { nexthop, message: msg });
                    assert(messages::outgoing_views(list@) =~= seq![
                        OutgoingView { nexthop, message: msg@ },
                    ]);
                }
                ServerReply::Outgoing(list)
            },
        }
    }
}

/// A view of a server has its identifier, its routes in order, and the views of
/// its clients, its stored texts and its remote clients.
proof fn law_server_view<const MAILBOX_SIZE: usize>(server: Server<MAILBOX_SIZE>, i: int)
    ensures
        server@.id == server.id,
        server@.clients == registry::client_views(server.clients@),
        server@.stored == relay::stored_views(server.stored@),
        server@.remote_clients == relay::info_views(server.remote_clients@),
        server@.routes.len() == server.routes@.len(),
        0 <= i < server.routes@.len() ==> server@.routes[i] == server.routes@[i]@,
{
}

} // verus!
