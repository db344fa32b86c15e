//! A server that routes texts over the shortest routes.
use super::registry;
use super::registry::{ClientView, Delivery};
use super::relay;
use super::relay::{ClientInfo, ClientInfoView, Stored, StoredView};
use crate::messages;
use crate::messages::{
    ClientError, ClientId, ClientMessage, ClientMessageView, ClientPollReply, ClientPollReplyView,
    ClientReply, ClientReplyView, FullyQualifiedMessage, FullyQualifiedMessageView, Outgoing,
    OutgoingView, Sequence, ServerId, ServerMessage, ServerMessageView, ServerReply,
    ServerReplyView,
};
use std::collections::HashMap;
use vstd::prelude::*;

pub use super::registry::Client;

verus! {

/// A server. The mailbox of each of its clients holds up to `MAILBOX_SIZE`
/// texts.
pub struct Server<const MAILBOX_SIZE: usize> {
    id: ServerId,
    clients: Vec<Client>,
    routes: Vec<Vec<ServerId>>,
    stored: Vec<Stored>,
    remote_clients: HashMap<u128, ClientInfo>,
}

/// What a [`Server`] knows.
pub struct ServerView {
    /// Its identifier.
    pub id: ServerId,
    /// The clients that are registered on it.
    pub clients: Seq<ClientView>,
    /// The routes that were announced to it, in order.
    pub routes: Seq<Seq<ServerId>>,
    /// The texts whose destination was not known, in order.
    pub stored: Seq<StoredView>,
    /// The clients of other servers, by the number of their identifier.
    pub remote_clients: Map<u128, ClientInfoView>,
}

impl<const MAILBOX_SIZE: usize> View for Server<MAILBOX_SIZE> {
    type V = ServerView;

    closed spec fn view(&self) -> ServerView {
        ServerView {
            id: self.id,
            clients: registry::client_views(self.clients@),
            routes: route_views(self.routes@),
            stored: relay::stored_views(self.stored@),
            remote_clients: relay::info_views(self.remote_clients@),
        }
    }
}

/// The servers on routes.
pub open spec fn route_views(routes: Seq<Vec<ServerId>>) -> Seq<Seq<ServerId>> {
    routes.map_values(|r: Vec<ServerId>| r@)
}

/// Whether the route at `i` is the shortest with a server on it: every other
/// one is at least as long, and every earlier one is longer.
pub open spec fn is_shortest(routes: Seq<Seq<ServerId>>, destination: ServerId, i: int) -> bool {
    &&& 0 <= i < routes.len()
    &&& routes[i].contains(destination)
    &&& forall|j: int|
        0 <= j < routes.len() && (#[trigger] routes[j]).contains(destination) ==> routes[i].len()
            <= routes[j].len()
    &&& forall|j: int|
        0 <= j < i && (#[trigger] routes[j]).contains(destination) ==> routes[i].len()
            < routes[j].len()
}

/// Whether a server is on one of the routes.
pub open spec fn is_known(routes: Seq<Seq<ServerId>>, destination: ServerId) -> bool {
    exists|i: int| 0 <= i < routes.len() && (#[trigger] routes[i]).contains(destination)
}

/// The shortest route with a server on it. Of several such routes it is the
/// first one.
pub open spec fn shortest(routes: Seq<Seq<ServerId>>, destination: ServerId) -> Option<
    Seq<ServerId>,
> {
    if is_known(routes, destination) {
        Some(routes[choose|i: int| is_shortest(routes, destination, i)])
    } else {
        None
    }
}

/// Whether a server is in order: its mailboxes keep to their limit, there is a
/// route to the server of each remote client, and no text waits for a client
/// that is known.
pub open spec fn in_order(s: ServerView, limit: nat) -> bool {
    &&& registry::bounded(s.clients, limit)
    &&& forall|k: u128| #[trigger]
        s.remote_clients.contains_key(k) ==> is_known(s.routes, s.remote_clients[k].server)
    &&& forall|i: int|
        0 <= i < s.stored.len() ==> !s.remote_clients.contains_key((#[trigger] s.stored[i]).dst.0)
}

/// A text for the client of another server, with the far end of the route to
/// it: the server that the route starts at.
pub open spec fn transferred(
    s: ServerView,
    src: ClientId,
    dest: ClientId,
    content: Seq<char>,
) -> FullyQualifiedMessageView {
    let server = s.remote_clients[dest.0].server;
    FullyQualifiedMessageView {
        src,
        srcsrv: s.id,
        dsts: seq![(dest, shortest(s.routes, server)->0[0])],
        content,
    }
}

/// The server after a text of one of its clients, and the reply.
pub open spec fn text(
    s: ServerView,
    limit: nat,
    src: ClientId,
    dest: ClientId,
    content: Seq<char>,
) -> (ServerView, ClientReplyView) {
    let (clients, delivery) = registry::delivered(s.clients, limit, src, dest, content);
    match delivery {
        Delivery::Done => (ServerView { clients, ..s }, ClientReplyView::Delivered),
        Delivery::BoxFull => (s, ClientReplyView::Error(ClientError::BoxFull(dest))),
        Delivery::NotLocal => if s.remote_clients.contains_key(dest.0) {
            (
                s,
                ClientReplyView::Transfer(
                    s.remote_clients[dest.0].server,
                    ServerMessageView::Message(transferred(s, src, dest, content)),
                ),
            )
        } else {
            (
                ServerView { stored: s.stored.push(StoredView { src, dst: dest, content }), ..s },
                ClientReplyView::Delayed,
            )
        },
    }
}

/// The server after a text for several clients, one after the other, and the
/// replies.
pub open spec fn texts(
    s: ServerView,
    limit: nat,
    src: ClientId,
    dest: Seq<ClientId>,
    content: Seq<char>,
) -> (ServerView, Seq<ClientReplyView>)
    decreases dest.len(),
{
    if dest.len() == 0 {
        (s, seq![])
    } else {
        let (before, replies) = texts(s, limit, src, dest.drop_last(), content);
        let (after, reply) = text(before, limit, src, dest.last(), content);
        (after, replies.push(reply))
    }
}

/// The server after a message of one of its clients, and the replies.
pub open spec fn client_message(
    s: ServerView,
    limit: nat,
    src: ClientId,
    msg: ClientMessageView,
) -> (ServerView, Seq<ClientReplyView>) {
    match msg {
        ClientMessageView::Text { dest, content } => {
            let (after, reply) = text(s, limit, src, dest, content);
            (after, seq![reply])
        },
        ClientMessageView::MText { dest, content } => texts(s, limit, src, dest, content),
    }
}

/// What goes out for a stored text whose destination is a client of another
/// server: it goes to the last server of the route, which is the next one on
/// the way.
pub open spec fn outgoing(s: ServerView, m: StoredView) -> OutgoingView {
    OutgoingView {
        nexthop: shortest(s.routes, s.remote_clients[m.dst.0].server)->0.last(),
        message: transferred(s, m.src, m.dst, m.content),
    }
}

/// What goes out for stored texts.
pub open spec fn sent(s: ServerView, stored: Seq<StoredView>) -> Seq<OutgoingView> {
    stored.map_values(|m: StoredView| outgoing(s, m))
}

/// The server after an announcement, and the reply: the texts that waited for
/// the announced clients go out and wait no longer.
pub open spec fn announced(
    s: ServerView,
    route: Seq<ServerId>,
    clients: Map<u128, Seq<char>>,
) -> (ServerView, ServerReplyView) {
    if route.len() == 0 {
        (s, ServerReplyView::EmptyRoute)
    } else {
        let after = ServerView {
            routes: s.routes.push(route),
            remote_clients: s.remote_clients.union_prefer_right(
                relay::infos(clients, route.last()),
            ),
            stored: relay::kept(s.stored, clients),
            ..s
        };
        (after, ServerReplyView::Outgoing(sent(after, relay::due(s.stored, clients))))
    }
}

/// Whether a text from another server is to be forwarded: not all of its
/// destinations are clients of this server, and there is a route to the server
/// of the first one.
pub open spec fn is_passed_on(s: ServerView, msg: FullyQualifiedMessageView) -> bool {
    &&& msg.dsts.len() > 0
    &&& !registry::all_local(s.clients, msg.dsts)
    &&& is_known(s.routes, msg.dsts[0].1)
}

/// The server after a text from another server, and the reply: the text goes
/// to the far end of the route to the server of its first destination, if it is
/// to be forwarded, and otherwise into the mailboxes of those of its
/// destinations that are registered.
pub open spec fn forwarded(s: ServerView, limit: nat, msg: FullyQualifiedMessageView) -> (
    ServerView,
    ServerReplyView,
) {
    if is_passed_on(s, msg) {
        let nexthop = shortest(s.routes, msg.dsts[0].1)->0[0];
        (s, ServerReplyView::Outgoing(seq![OutgoingView { nexthop, message: msg }]))
    } else {
        (
            ServerView {
                clients: registry::delivered_to(s.clients, limit, msg.src, msg.dsts, msg.content),
                ..s
            },
            ServerReplyView::Outgoing(seq![]),
        )
    }
}

/// The server after a message from another server, and the reply.
pub open spec fn server_message(s: ServerView, limit: nat, msg: ServerMessageView) -> (
    ServerView,
    ServerReplyView,
) {
    match msg {
        ServerMessageView::Announce { route, clients } => announced(s, route, clients),
        ServerMessageView::Message(msg) => forwarded(s, limit, msg),
    }
}

/// The server after a request, and why it was refused if it was.
pub open spec fn request(
    s: ServerView,
    src: ClientId,
    seqid: u128,
    workproof_holds: bool,
) -> (ServerView, Option<ClientError>) {
    let (clients, refusal) = registry::sequenced(s.clients, src, seqid, workproof_holds);
    (ServerView { clients, ..s }, refusal)
}

/// The server after a client polled, and the answer.
pub open spec fn poll(s: ServerView, client: ClientId) -> (ServerView, ClientPollReplyView) {
    let (clients, answer) = registry::polled(s.clients, client);
    (ServerView { clients, ..s }, answer)
}

/// The server after a client was registered.
pub open spec fn registered(s: ServerView, id: ClientId, name: Seq<char>) -> ServerView {
    ServerView { clients: s.clients.push(registry::new_client(id, name)), ..s }
}

/// There is a shortest route to a server exactly if it is on a stored route.
pub proof fn law_shortest_exists(routes: Seq<Seq<ServerId>>, destination: ServerId)
    ensures
        is_known(routes, destination) <==> exists|i: int|
            is_shortest(routes, destination, i),
    decreases routes.len(),
{
    if is_known(routes, destination) {
        let front = routes.drop_last();
        let last = routes.len() - 1;
        law_shortest_exists(front, destination);
        assert(forall|j: int| 0 <= j < last ==> front[j] == #[trigger] routes[j]);
        if is_known(front, destination) {
            let i = choose|i: int| is_shortest(front, destination, i);
            if routes[last].contains(destination) && routes[last].len() < routes[i].len() {
                assert(is_shortest(routes, destination, last));
            } else {
                assert(is_shortest(routes, destination, i));
            }
        } else {
            assert forall|j: int| 0 <= j < last implies !(#[trigger] routes[j]).contains(
                destination,
            ) by {
                assert(front[j] == routes[j]);
            }
            assert(is_shortest(routes, destination, last));
        }
    } else {
        assert forall|i: int| !is_shortest(routes, destination, i) by {
            if is_shortest(routes, destination, i) {
                assert(routes[i].contains(destination));
            }
        }
    }
}

/// The shortest route to a server is one alone.
pub proof fn law_shortest_is_unique(
    routes: Seq<Seq<ServerId>>,
    destination: ServerId,
    i: int,
    j: int,
)
    requires
        is_shortest(routes, destination, i),
        is_shortest(routes, destination, j),
    ensures
        i == j,
{
    assert(routes[i].contains(destination));
    assert(routes[j].contains(destination));
}

/// The shortest route to a server is one of the routes and has that server on
/// it.
pub proof fn law_shortest(routes: Seq<Seq<ServerId>>, destination: ServerId, i: int)
    requires
        is_shortest(routes, destination, i),
    ensures
        shortest(routes, destination) == Some(routes[i]),
        routes[i].contains(destination),
        routes[i].len() > 0,
{
    assert(is_known(routes, destination)) by {
        assert(routes[i].contains(destination));
    }
    let j = choose|j: int| is_shortest(routes, destination, j);
    law_shortest_is_unique(routes, destination, i, j);
}

/// An announcement keeps a server in order.
pub proof fn law_announcement_keeps(
    s: ServerView,
    limit: nat,
    route: Seq<ServerId>,
    clients: Map<u128, Seq<char>>,
)
    requires
        in_order(s, limit),
    ensures
        in_order(announced(s, route, clients).0, limit),
{
    let after = announced(s, route, clients).0;
    if route.len() > 0 {
        assert forall|k: u128| #[trigger] after.remote_clients.contains_key(k) implies is_known(
            after.routes,
            after.remote_clients[k].server,
        ) by {
            let server = after.remote_clients[k].server;
            if clients.contains_key(k) {
                assert(route[route.len() - 1] == server);
                assert(after.routes[s.routes.len() as int].contains(server));
            } else {
                assert(s.remote_clients.contains_key(k));
                let i = choose|i: int|
                    0 <= i < s.routes.len() && (#[trigger] s.routes[i]).contains(server);
                assert(after.routes[i].contains(server));
            }
        }
        assert forall|i: int|
            0 <= i < after.stored.len() implies !after.remote_clients.contains_key(
            (#[trigger] after.stored[i]).dst.0,
        ) by {
            relay::lemma_kept(s.stored, clients, i);
            let j = s.stored.index_of(after.stored[i]);
            assert(!s.remote_clients.contains_key(s.stored[j].dst.0));
        }
    }
}

/// Finds the shortest route with a server on it. Of several such routes it is
/// the first one.
pub fn shortest_route(routes: &Vec<Vec<ServerId>>, destination: ServerId) -> (r: Option<usize>)
    ensures
        match r {
            Some(i) => is_shortest(route_views(routes@), destination, i as int),
            None => !is_known(route_views(routes@), destination),
        },
{
    let ghost all = route_views(routes@);
    let mut best: Option<usize> = None;
    let mut i: usize = 0;
    assert(all.take(0) =~= seq![]);
    while i < routes.len()
        invariant
            i <= routes@.len(),
            all == route_views(routes@),
            match best {
                Some(b) => b < i && is_shortest(all.take(i as int), destination, b as int),
                None => !is_known(all.take(i as int), destination),
            },
        decreases routes@.len() - i,
    {
        let ghost front = all.take(i as int);
        let ghost next = all.take(i + 1);
        assert(forall|j: int| 0 <= j < i ==> #[trigger] front[j] == next[j]);
        assert(next[i as int] == routes@[i as int]@);
        if registry::is_on(&routes[i], destination) {
            let better = match best {
                Some(b) => routes[i].len() < routes[b].len(),
                None => true,
            };
            if better {
                proof {
                    if best is None {
                        assert forall|j: int| 0 <= j < i implies !(#[trigger] next[j]).contains(
                            destination,
                        ) by {
                            assert(front[j] == next[j]);
                        }
                    }
                }
                best = Some(i);
            }
        }
        i = i + 1;
    }
    assert(all.take(i as int) =~= all);
    best
}

impl<const MAILBOX_SIZE: usize> Server<MAILBOX_SIZE> {
    /// Whether this server is in order.
    pub open spec fn wf(&self) -> bool {
        in_order(self@, MAILBOX_SIZE as nat)
    }

    /// A server without clients.
    pub fn new(id: ServerId) -> (r: Self)
        ensures
            r.wf(),
            r@ == (ServerView {
                id,
                clients: seq![],
                routes: seq![],
                stored: seq![],
                remote_clients: Map::empty(),
            }),
    {
        let r = Self {
            id,
            clients: Vec::new(),
            routes: Vec::new(),
            stored: Vec::new(),
            remote_clients: HashMap::new(),
        };
        assert(r@.clients =~= seq![]);
        assert(r@.routes =~= seq![]);
        assert(r@.stored =~= seq![]);
        assert(r@.remote_clients =~= Map::empty());
        r
    }

    /// Registers a client under an identifier.
    pub fn register_client(&mut self, id: ClientId, name: String)
        requires
            old(self).wf(),
        ensures
            final(self).wf(),
            final(self)@ == registered(old(self)@, id, name@),
    {
        let ghost before = self@;
        registry::add_client(&mut self.clients, id, name);
        assert(self@ == registered(before, id, name@));
    }

    /// Registers a client under a new random identifier, which is returned.
    pub fn register_local_client(&mut self, name: String) -> (r: ClientId)
        requires
            old(self).wf(),
        ensures
            registry::is_random(r.0),
            final(self).wf(),
            final(self)@ == registered(old(self)@, r, name@),
    {
        let client_id = ClientId(registry::random_id());
        self.register_client(client_id, name);
        client_id
    }

    /// The names of the registered clients, by the number of their identifier.
    pub fn list_users(&self) -> (r: HashMap<u128, String>)
        ensures
            messages::names(r@) == registry::client_names(self@.clients),
    {
        registry::users(&self.clients)
    }

    /// Accepts a request and hands out its content, or refuses it: because the
    /// proof of work does not hold, because its client is not registered, or
    /// because its number is not above that of the last accepted one.
    pub fn handle_checked_message<A>(&mut self, sequence: Sequence<A>, workproof_holds: bool) -> (r:
        Result<A, ClientError>)
        requires
            old(self).wf(),
        ensures
            final(self).wf(),
            ({
                let (after, refusal) = request(
                    old(self)@,
                    sequence.src,
                    sequence.seqid,
                    workproof_holds,
                );
                &&& final(self)@ == after
                &&& r == registry::answer(sequence.content, refusal)
            }),
    {
        proof {
            registry::law_request_keeps(
                self@.clients,
                MAILBOX_SIZE as nat,
                sequence.src,
                sequence.seqid,
                workproof_holds,
            );
        }
        registry::open_request(&mut self.clients, sequence, workproof_holds)
    }

    /// Accepts or refuses a request. `verify_workproof` says whether the proof
    /// of work of a client holds.
    pub fn handle_sequenced_message<A, V: FnOnce(&ClientId, u128) -> bool>(
        &mut self,
        sequence: Sequence<A>,
        verify_workproof: V,
    ) -> (r: Result<A, ClientError>)
        requires
            old(self).wf(),
            call_requires(verify_workproof, (&sequence.src, sequence.workproof)),
        ensures
            final(self).wf(),
            exists|holds: bool|
                #![trigger call_ensures(
                    verify_workproof,
                    (&sequence.src, sequence.workproof),
                    holds,
                )]
                call_ensures(verify_workproof, (&sequence.src, sequence.workproof), holds) && ({
                    let (after, refusal) = request(
                        old(self)@,
                        sequence.src,
                        sequence.seqid,
                        holds,
                    );
                    &&& final(self)@ == after
                    &&& r == registry::answer(sequence.content, refusal)
                }),
    {
        let holds = verify_workproof(&sequence.src, sequence.workproof);
        self.handle_checked_message(sequence, holds)
    }

    /// Hands a client the oldest text of its mailbox.
    pub fn client_poll(&mut self, client: ClientId) -> (r: ClientPollReply)
        requires
            old(self).wf(),
        ensures
            final(self).wf(),
            (final(self)@, r@) == poll(old(self)@, client),
    {
        let ghost before = self@;
        proof {
            registry::law_poll_keeps(before.clients, MAILBOX_SIZE as nat, client);
        }
        let r = registry::poll(&mut self.clients, client);
        assert(self@ == poll(before, client).0);
        r
    }

    /// Handles a message of a client: a text for one client or for several.
    pub fn handle_client_message(&mut self, src: ClientId, msg: ClientMessage) -> (r: Vec<
        ClientReply,
    >)
        requires
            old(self).wf(),
        ensures
            final(self).wf(),
            (final(self)@, messages::reply_views(r@)) == client_message(
                old(self)@,
                MAILBOX_SIZE as nat,
                src,
                msg@,
            ),
    {
        let mut replies: Vec<ClientReply> = Vec::new();
        match msg {
            ClientMessage::Text { dest, content } => {
                let reply = self.handle_text_message(src, dest, content);
                replies.push(reply);
                assert(messages::reply_views(replies@) =~= seq![reply@]);
            },
            ClientMessage::MText { dest, content } => {
                let ghost before = self@;
                let mut i: usize = 0;
                assert(messages::reply_views(replies@) =~= seq![]);
                while i < dest.len()
                    invariant
                        i <= dest@.len(),
                        self.wf(),
                        (self@, messages::reply_views(replies@)) == texts(
                            before,
                            MAILBOX_SIZE as nat,
                            src,
                            dest@.take(i as int),
                            content@,
                        ),
                    decreases dest@.len() - i,
                {
                    let ghost sofar = messages::reply_views(replies@);
                    let reply = self.handle_text_message(src, dest[i], content.clone());
                    replies.push(reply);
                    assert(messages::reply_views(replies@) =~= sofar.push(reply@));
                    assert(dest@.take(i + 1).drop_last() =~= dest@.take(i as int));
                    i = i + 1;
                }
                assert(dest@.take(i as int) =~= dest@);
            },
        }
        replies
    }

    /// Takes out the stored texts for the given clients, and makes the messages
    /// that go out for them.
    fn hand_out(&mut self, clients: &HashMap<u128, String>) -> (r: Vec<Outgoing>)
        requires
            forall|k: u128| #[trigger]
                clients@.contains_key(k) ==> old(self)@.remote_clients.contains_key(k) && is_known(
                    old(self)@.routes,
                    old(self)@.remote_clients[k].server,
                ),
        ensures
            final(self)@ == (ServerView {
                stored: relay::kept(old(self)@.stored, messages::names(clients@)),
                ..old(self)@
            }),
            messages::outgoing_views(r@) == sent(
                final(self)@,
                relay::due(old(self)@.stored, messages::names(clients@)),
            ),
    {
        let ghost named = messages::names(clients@);
        let ghost before = self@;
        let texts = relay::take_due(&mut self.stored, clients);
        let ghost all = relay::stored_views(texts@);
        let mut replies: Vec<Outgoing> = Vec::new();
        let mut i: usize = 0;
        assert(messages::outgoing_views(replies@) =~= sent(self@, all.take(0)));
        while i < texts.len()
            invariant
                i <= texts@.len(),
                all == relay::stored_views(texts@),
                all == relay::due(before.stored, named),
                named == messages::names(clients@),
                self@ == (ServerView { stored: self@.stored, ..before }),
                messages::outgoing_views(replies@) == sent(self@, all.take(i as int)),
                forall|k: u128| #[trigger]
                    clients@.contains_key(k) ==> before.remote_clients.contains_key(k) && is_known(
                        before.routes,
                        before.remote_clients[k].server,
                    ),
            decreases texts@.len() - i,
        {
            let ghost sofar = messages::outgoing_views(replies@);
            proof {
                relay::lemma_due(before.stored, named, i as int);
                assert(all[i as int] == texts@[i as int]@);
                assert(clients@.contains_key(all[i as int].dst.0));
            }
            let outgoing = self.dispatch(&texts[i]);
            replies.push(outgoing);
            assert(messages::outgoing_views(replies@) =~= sofar.push(outgoing@));
            assert(sent(self@, all.take(i + 1)) =~= sent(self@, all.take(i as int)).push(
                outgoing@,
            ));
            i = i + 1;
        }
        assert(all.take(i as int) =~= all);
        replies
    }

    /// The message that goes out for a text whose destination is a client of
    /// another server.
    fn dispatch(&self, message: &Stored) -> (r: Outgoing)
        requires
            self@.remote_clients.contains_key(message@.dst.0),
            is_known(self@.routes, self@.remote_clients[message@.dst.0].server),
        ensures
            r@ == outgoing(self@, message@),
    {
        let server = match relay::server_of(&self.remote_clients, message.dst) {
            Some(server) => server,
            None => self.id,
        };
        let (dst, nexthop) = self.ends_of_route(server);
        let mut dsts: Vec<(ClientId, ServerId)> = Vec::new();
        dsts.push((message.dst, dst));
        let r = Outgoing {
            nexthop,
            message: FullyQualifiedMessage {
                src: message.src,
                srcsrv: self.id,
                dsts,
                content: message.content.clone(),
            },
        };
        assert(r@.message.dsts =~= seq![(message.dst, dst)]);
        r
    }

    /// The first and the last server of the shortest route to another one.
    fn ends_of_route(&self, destination: ServerId) -> (r: (ServerId, ServerId))
        requires
            is_known(self@.routes, destination),
        ensures
            r.0 == shortest(self@.routes, destination)->0[0],
            r.1 == shortest(self@.routes, destination)->0.last(),
    {
        match self.route_to(destination) {
            Some(way) => {
                proof {
                    let i = choose|i: int| #[trigger]
                        is_shortest(self@.routes, destination, i) && way@ == self@.routes[i];
                    law_shortest(self@.routes, destination, i);
                }
                (way[0], way[way.len() - 1])
            },
            None => (self.id, self.id),
        }
    }

    /// Handles a message from another server: the clients and the route of an
    /// announcement are stored, and the texts that wait for these clients go
    /// out; a text is delivered or forwarded.
    pub fn handle_server_message(&mut self, msg: ServerMessage) -> (r: ServerReply)
        requires
            old(self).wf(),
        ensures
            final(self).wf(),
            (final(self)@, r@) == server_message(old(self)@, MAILBOX_SIZE as nat, msg@),
    {
        let ghost before = self@;
        match msg {
            ServerMessage::Announce { route, clients } => {
                if route.len() == 0 {
                    return ServerReply::EmptyRoute;
                }
                let ghost announced_route = route@;
                let last = route[route.len() - 1];
                relay::learn(&mut self.remote_clients, &clients, last);
                self.routes.push(route);
                proof {
                    let named = messages::names(clients@);
                    assert(self@.routes =~= before.routes.push(announced_route));
                    law_announcement_keeps(
                        before,
                        MAILBOX_SIZE as nat,
                        announced_route,
                        named,
                    );
                    let after = announced(before, announced_route, named).0;
                    assert forall|k: u128| #[trigger] clients@.contains_key(k) implies {
                        &&& self@.remote_clients.contains_key(k)
                        &&& is_known(self@.routes, self@.remote_clients[k].server)
                    } by {
                        assert(named.contains_key(k));
                        assert(after.remote_clients.contains_key(k));
                    }
                }
                let list = self.hand_out(&clients);
                assert(self@ == announced(
                    before,
                    announced_route,
                    messages::names(clients@),
                ).0);
                ServerReply::Outgoing(list)
            },
            ServerMessage::Message(msg) => {
                let mut list: Vec<Outgoing> = Vec::new();
                let passed_on = msg.dsts.len() > 0 && !registry::are_local(
                    &self.clients,
                    &msg.dsts,
                ) && shortest_route(&self.routes, msg.dsts[0].1).is_some();
                proof {
                    if msg.dsts@.len() > 0 {
                        law_shortest_exists(before.routes, msg.dsts@[0].1);
                    }
                }
                assert(passed_on == is_passed_on(before, msg@));
                if passed_on {
                    let nexthop = self.ends_of_route(msg.dsts[0].1).0;
                    list.push(Outgoing { nexthop, message: msg });
                    assert(messages::outgoing_views(list@) =~= seq![
                        OutgoingView { nexthop, message: msg@ },
                    ]);
                } else {
                    proof {
                        registry::law_deliveries_keep(
                            before.clients,
                            MAILBOX_SIZE as nat,
                            msg.src,
                            msg.dsts@,
                            msg.content@,
                        );
                    }
                    registry::deliver_to(
                        &mut self.clients,
                        MAILBOX_SIZE,
                        msg.src,
                        &msg.dsts,
                        &msg.content,
                    );
                    assert(messages::outgoing_views(list@) =~= seq![]);
                    assert(self@ == ServerView { clients: self@.clients, ..before });
                }
                ServerReply::Outgoing(list)
            },
        }
    }

    /// The shortest stored route with a server on it. Of several such routes it
    /// is the one that was announced first.
    pub fn route_to(&self, destination: ServerId) -> (r: Option<Vec<ServerId>>)
        ensures
            match r {
                Some(way) => exists|i: int| #[trigger]
                    is_shortest(self@.routes, destination, i) && way@ == self@.routes[i],
                None => !is_known(self@.routes, destination),
            },
    {
        match shortest_route(&self.routes, destination) {
            Some(i) => {
                assert(self@.routes == route_views(self.routes@));
                Some(self.routes[i].clone())
            },
            None => None,
        }
    }

    /// Handles a text of a client: it is delivered to a client of this server,
    /// unless its mailbox is full; it is to be transferred if its destination
    /// is a client of another server; and otherwise it is stored.
    pub fn handle_text_message(&mut self, src: ClientId, dest: ClientId, content: String) -> (r:
        ClientReply)
        requires
            old(self).wf(),
        ensures
            final(self).wf(),
            (final(self)@, r@) == text(old(self)@, MAILBOX_SIZE as nat, src, dest, content@),
    {
        let ghost before = self@;
        proof {
            registry::law_delivery_keeps(
                before.clients,
                MAILBOX_SIZE as nat,
                src,
                dest,
                content@,
            );
        }
        if registry::find(&self.clients, dest).is_some() {
            let delivery = registry::deliver(&mut self.clients, MAILBOX_SIZE, src, dest, content);
            assert(self@ == ServerView { clients: self@.clients, ..before });
            return match delivery {
                Delivery::Done => ClientReply::Delivered,
                _ => ClientReply::Error(ClientError::BoxFull(dest)),
            };
        }
        match relay::server_of(&self.remote_clients, dest) {
            Some(id) => {
                let far_end = self.ends_of_route(id).0;
                let mut dsts: Vec<(ClientId, ServerId)> = Vec::new();
                dsts.push((dest, far_end));
                let ghost whole = transferred(self@, src, dest, content@);
                let message = FullyQualifiedMessage { src, srcsrv: self.id, dsts, content };
                assert(message@.dsts =~= whole.dsts);
                ClientReply::Transfer(id, ServerMessage::Message(message))
            },
            None => {
                self.stored.push(Stored { src, dst: dest, content });
                assert(self@.stored =~= before.stored.push(self.stored@.last()@));
                ClientReply::Delayed
            },
        }
    }
}

/// A view of a server has its identifier, its routes in order, and the views of
/// its clients, its stored texts and its remote clients.
proof fn law_server_view<const MAILBOX_SIZE: usize>(server: Server<MAILBOX_SIZE>, i: int)
    ensures
        server@.id == server.id,
        server@.clients == registry::client_views(server.clients@),
        server@.stored == relay::stored_views(server.stored@),
        server@.remote_clients == relay::info_views(server.remote_clients@),
        server@.routes.len() == server.routes@.len(),
        0 <= i < server.routes@.len() ==> server@.routes[i] == server.routes@[i]@,
{
}

} // verus!
