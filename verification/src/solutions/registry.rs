//! The clients that are registered on a server, and their mailboxes.
use crate::messages;
use crate::messages::{
    ClientError, ClientId, ClientPollReply, ClientPollReplyView, Sequence, ServerId,
};
use std::collections::HashMap;
use vstd::prelude::*;

verus! {

/// A client that is registered on a server.
pub struct Client {
    /// Its identifier.
    pub id: ClientId,
    /// Its name.
    pub name: String,
    /// The number of the last request that was accepted from it.
    pub last_seen: u128,
    /// The texts that wait for it, the oldest first, and who sent them.
    pub mailbox: Vec<(ClientId, String)>,
}

/// What a [`Client`] holds.
pub struct ClientView {
    pub id: ClientId,
    pub name: Seq<char>,
    pub last_seen: u128,
    pub mailbox: Seq<(ClientId, Seq<char>)>,
}

impl View for Client {
    type V = ClientView;

    open spec fn view(&self) -> ClientView {
        ClientView {
            id: self.id,
            name: self.name@,
            last_seen: self.last_seen,
            mailbox: self.mailbox@.map_values(|m: (ClientId, String)| (m.0, m.1@)),
        }
    }
}

/// What clients hold, in the order in which they were registered.
pub open spec fn client_views(clients: Seq<Client>) -> Seq<ClientView> {
    clients.map_values(|c: Client| c@)
}

/// Where the first client with an identifier stands.
pub open spec fn position(clients: Seq<ClientView>, id: ClientId) -> Option<nat>
    decreases clients.len(),
{
    if clients.len() == 0 {
        None
    } else {
        match position(clients.drop_last(), id) {
            Some(i) => Some(i),
            None => if clients.last().id == id {
                Some((clients.len() - 1) as nat)
            } else {
                None
            },
        }
    }
}

/// Whether a client is registered.
pub open spec fn is_local(clients: Seq<ClientView>, id: ClientId) -> bool {
    position(clients, id) is Some
}

/// The position of a client is the first at which its identifier stands, and
/// there is none if its identifier stands nowhere.
pub proof fn law_position(clients: Seq<ClientView>, id: ClientId)
    ensures
        match position(clients, id) {
            Some(i) => {
                &&& i < clients.len()
                &&& clients[i as int].id == id
                &&& forall|j: int| 0 <= j < i ==> (#[trigger] clients[j]).id != id
            },
            None => forall|j: int| 0 <= j < clients.len() ==> (#[trigger] clients[j]).id != id,
        },
    decreases clients.len(),
{
    if clients.len() > 0 {
        let front = clients.drop_last();
        law_position(front, id);
        assert forall|j: int| 0 <= j < front.len() implies #[trigger] clients[j] == front[j] by {}
    }
}

/// The position of a client stays when clients change but keep their
/// identifiers.
pub proof fn lemma_position_kept(before: Seq<ClientView>, after: Seq<ClientView>, id: ClientId)
    requires
        before.len() == after.len(),
        forall|j: int| 0 <= j < before.len() ==> (#[trigger] before[j]).id == after[j].id,
    ensures
        position(before, id) == position(after, id),
    decreases before.len(),
{
    if before.len() > 0 {
        assert forall|j: int| 0 <= j < before.drop_last().len() implies (
        #[trigger] before.drop_last()[j]).id == after.drop_last()[j].id by {
            assert(before[j].id == after[j].id);
        }
        lemma_position_kept(before.drop_last(), after.drop_last(), id);
        assert(before[before.len() - 1].id == after[after.len() - 1].id);
    }
}

/// A client that has just been registered.
pub open spec fn new_client(id: ClientId, name: Seq<char>) -> ClientView {
    ClientView { id, name, last_seen: 0, mailbox: seq![] }
}

/// The clients after a request, and why it was refused if it was.
pub open spec fn sequenced(
    clients: Seq<ClientView>,
    src: ClientId,
    seqid: u128,
    workproof_holds: bool,
) -> (Seq<ClientView>, Option<ClientError>) {
    if !workproof_holds {
        (clients, Some(ClientError::WorkProofError))
    } else {
        match position(clients, src) {
            None => (clients, Some(ClientError::UnknownClient)),
            Some(i) => if clients[i as int].last_seen >= seqid {
                (clients, Some(ClientError::SequenceError))
            } else {
                (
                    clients.update(
                        i as int,
                        ClientView { last_seen: seqid, ..clients[i as int] },
                    ),
                    None,
                )
            },
        }
    }
}

/// The clients after one of them polled, and the answer: the oldest text of
/// its mailbox, which leaves it.
pub open spec fn polled(clients: Seq<ClientView>, id: ClientId) -> (
    Seq<ClientView>,
    ClientPollReplyView,
) {
    match position(clients, id) {
        None => (clients, ClientPollReplyView::Nothing),
        Some(i) => {
            let mailbox = clients[i as int].mailbox;
            if mailbox.len() == 0 {
                (clients, ClientPollReplyView::Nothing)
            } else {
                (
                    clients.update(
                        i as int,
                        ClientView { mailbox: mailbox.drop_first(), ..clients[i as int] },
                    ),
                    ClientPollReplyView::Message { src: mailbox[0].0, content: mailbox[0].1 },
                )
            }
        },
    }
}

/// What became of a text for a registered client.
#[derive(Clone, Copy, PartialEq, Eq, Structural, Debug)]
pub enum Delivery {
    /// It is in the mailbox.
    Done,
    /// The mailbox is full.
    BoxFull,
    /// The client is not registered.
    NotLocal,
}

/// The clients after a text for one of them came, and what became of it. It
/// goes to the end of the mailbox, if that holds fewer than `limit` texts.
pub open spec fn delivered(
    clients: Seq<ClientView>,
    limit: nat,
    src: ClientId,
    dest: ClientId,
    content: Seq<char>,
) -> (Seq<ClientView>, Delivery) {
    match position(clients, dest) {
        None => (clients, Delivery::NotLocal),
        Some(i) => {
            let mailbox = clients[i as int].mailbox;
            if mailbox.len() >= limit {
                (clients, Delivery::BoxFull)
            } else {
                (
                    clients.update(
                        i as int,
                        ClientView { mailbox: mailbox.push((src, content)), ..clients[i as int] },
                    ),
                    Delivery::Done,
                )
            }
        },
    }
}

/// The names of clients, by the number of their identifier.
pub open spec fn client_names(clients: Seq<ClientView>) -> Map<u128, Seq<char>>
    decreases clients.len(),
{
    if clients.len() == 0 {
        Map::empty()
    } else {
        client_names(clients.drop_last()).insert(clients.last().id.0, clients.last().name)
    }
}

/// Whether all destinations of a message are registered clients.
pub open spec fn all_local(
    clients: Seq<ClientView>,
    dsts: Seq<(ClientId, ServerId)>,
) -> bool {
    forall|i: int| 0 <= i < dsts.len() ==> is_local(clients, (#[trigger] dsts[i]).0)
}

/// The clients after a text for several destinations came: it goes into the
/// mailbox of each that is registered, unless that mailbox is full.
pub open spec fn delivered_to(
    clients: Seq<ClientView>,
    limit: nat,
    src: ClientId,
    dsts: Seq<(ClientId, ServerId)>,
    content: Seq<char>,
) -> Seq<ClientView>
    decreases dsts.len(),
{
    if dsts.len() == 0 {
        clients
    } else {
        let before = delivered_to(clients, limit, src, dsts.drop_last(), content);
        delivered(before, limit, src, dsts.last().0, content).0
    }
}

/// Whether a number is that of a random UUID: of version 4 and of the variant
/// that RFC 9562 describes.
pub open spec fn is_random(id: u128) -> bool {
    id & 0xf000_c000_0000_0000_0000 == 0x4000_8000_0000_0000_0000
}

/// What a request gives: its content, or the reason for which it was refused.
pub open spec fn answer<A>(content: A, refusal: Option<ClientError>) -> Result<A, ClientError> {
    match refusal {
        None => Ok(content),
        Some(err) => Err(err),
    }
}

/// Whether no mailbox holds more than `limit` texts.
pub open spec fn bounded(clients: Seq<ClientView>, limit: nat) -> bool {
    forall|i: int| 0 <= i < clients.len() ==> (#[trigger] clients[i]).mailbox.len() <= limit
}

/// Delivering a text keeps mailboxes within their limit, and keeps everything
/// of the clients but their mailboxes.
pub proof fn law_delivery_keeps(
    clients: Seq<ClientView>,
    limit: nat,
    src: ClientId,
    dest: ClientId,
    content: Seq<char>,
)
    ensures
        ({
            let after = delivered(clients, limit, src, dest, content).0;
            &&& bounded(clients, limit) ==> bounded(after, limit)
            &&& after.len() == clients.len()
            &&& forall|i: int|
                0 <= i < clients.len() ==> {
                    &&& (#[trigger] after[i]).id == clients[i].id
                    &&& after[i].name == clients[i].name
                    &&& after[i].last_seen == clients[i].last_seen
                }
            &&& forall|id: ClientId| #[trigger] is_local(after, id) == is_local(clients, id)
        }),
{
    let after = delivered(clients, limit, src, dest, content).0;
    law_position(clients, dest);
    assert forall|id: ClientId| #[trigger] is_local(after, id) == is_local(clients, id) by {
        lemma_position_kept(clients, after, id);
    }
}

/// Delivering a text to several destinations keeps what delivering it to one
/// of them keeps.
pub proof fn law_deliveries_keep(
    clients: Seq<ClientView>,
    limit: nat,
    src: ClientId,
    dsts: Seq<(ClientId, ServerId)>,
    content: Seq<char>,
)
    ensures
        ({
            let after = delivered_to(clients, limit, src, dsts, content);
            &&& bounded(clients, limit) ==> bounded(after, limit)
            &&& after.len() == clients.len()
            &&& forall|i: int|
                0 <= i < clients.len() ==> {
                    &&& (#[trigger] after[i]).id == clients[i].id
                    &&& after[i].name == clients[i].name
                    &&& after[i].last_seen == clients[i].last_seen
                }
            &&& forall|id: ClientId| #[trigger] is_local(after, id) == is_local(clients, id)
        }),
    decreases dsts.len(),
{
    if dsts.len() > 0 {
        let before = delivered_to(clients, limit, src, dsts.drop_last(), content);
        law_deliveries_keep(clients, limit, src, dsts.drop_last(), content);
        law_delivery_keeps(before, limit, src, dsts.last().0, content);
        let after = delivered_to(clients, limit, src, dsts, content);
        assert forall|i: int| 0 <= i < clients.len() implies {
            &&& (#[trigger] after[i]).id == clients[i].id
            &&& after[i].name == clients[i].name
            &&& after[i].last_seen == clients[i].last_seen
        } by {
            assert(before[i].id == clients[i].id);
        }
    }
}

/// A request keeps mailboxes within their limit, and keeps everything of the
/// clients but the number of the last accepted request.
pub proof fn law_request_keeps(
    clients: Seq<ClientView>,
    limit: nat,
    src: ClientId,
    seqid: u128,
    workproof_holds: bool,
)
    ensures
        ({
            let after = sequenced(clients, src, seqid, workproof_holds).0;
            &&& bounded(clients, limit) ==> bounded(after, limit)
            &&& after.len() == clients.len()
            &&& forall|i: int|
                0 <= i < clients.len() ==> {
                    &&& (#[trigger] after[i]).id == clients[i].id
                    &&& after[i].name == clients[i].name
                    &&& after[i].mailbox == clients[i].mailbox
                }
            &&& forall|id: ClientId| #[trigger] is_local(after, id) == is_local(clients, id)
        }),
{
    let after = sequenced(clients, src, seqid, workproof_holds).0;
    law_position(clients, src);
    assert forall|id: ClientId| #[trigger] is_local(after, id) == is_local(clients, id) by {
        lemma_position_kept(clients, after, id);
    }
}

/// A poll keeps mailboxes within their limit, and keeps everything of the
/// clients but their mailboxes.
pub proof fn law_poll_keeps(clients: Seq<ClientView>, limit: nat, id: ClientId)
    ensures
        ({
            let after = polled(clients, id).0;
            &&& bounded(clients, limit) ==> bounded(after, limit)
            &&& after.len() == clients.len()
            &&& forall|i: int|
                0 <= i < clients.len() ==> {
                    &&& (#[trigger] after[i]).id == clients[i].id
                    &&& after[i].name == clients[i].name
                    &&& after[i].last_seen == clients[i].last_seen
                }
            &&& forall|other: ClientId| #[trigger]
                is_local(after, other) == is_local(clients, other)
        }),
{
    let after = polled(clients, id).0;
    law_position(clients, id);
    assert forall|other: ClientId| #[trigger] is_local(after, other) == is_local(
        clients,
        other,
    ) by {
        lemma_position_kept(clients, after, other);
    }
}

/// `uuid`'s `Uuid::new_v4`, as the number of the UUID: a random one, of which
/// only the bits for the version and the variant are known. It panics if the
/// system has no random bytes to give.
#[verifier::external_body]
pub(crate) fn random_id() -> (r: u128)
    ensures
        is_random(r),
{
    uuid::Uuid::new_v4().as_u128()
}

/// Finds the first client with an identifier.
pub fn find(clients: &Vec<Client>, id: ClientId) -> (r: Option<usize>)
    ensures
        match r {
            Some(i) => position(client_views(clients@), id) == Some(i as nat),
            None => position(client_views(clients@), id) is None,
        },
        r matches Some(i) ==> i < clients@.len() && clients@[i as int].id == id,
{
    let ghost all = client_views(clients@);
    let mut i: usize = 0;
    while i < clients.len()
        invariant
            i <= clients@.len(),
            all == client_views(clients@),
            position(all.take(i as int), id) is None,
        decreases clients@.len() - i,
    {
        assert(all.take(i + 1).drop_last() =~= all.take(i as int));
        if clients[i].id == id {
            proof {
                lemma_position_prefix(all, id, i + 1);
            }
            return Some(i);
        }
        i = i + 1;
    }
    assert(all.take(i as int) =~= all);
    None
}

/// A client that is found among the first clients is found there among all.
proof fn lemma_position_prefix(clients: Seq<ClientView>, id: ClientId, n: int)
    requires
        0 <= n <= clients.len(),
        position(clients.take(n), id) is Some,
    ensures
        position(clients, id) == position(clients.take(n), id),
    decreases clients.len(),
{
    if n < clients.len() {
        assert(clients.drop_last().take(n) =~= clients.take(n));
        lemma_position_prefix(clients.drop_last(), id, n);
    } else {
        assert(clients.take(n) =~= clients);
    }
}

/// Whether a server is on a route.
pub fn is_on(route: &Vec<ServerId>, destination: ServerId) -> (r: bool)
    ensures
        r == route@.contains(destination),
{
    let mut i: usize = 0;
    while i < route.len()
        invariant
            i <= route@.len(),
            forall|j: int| 0 <= j < i ==> route@[j] != destination,
        decreases route@.len() - i,
    {
        if route[i] == destination {
            return true;
        }
        i = i + 1;
    }
    false
}

/// Registers a client under an identifier.
pub fn add_client(clients: &mut Vec<Client>, id: ClientId, name: String)
    ensures
        client_views(final(clients)@) == client_views(old(clients)@).push(new_client(id, name@)),
{
    clients.push(Client { id, name, last_seen: 0, mailbox: Vec::new() });
    assert(clients@.last()@.mailbox =~= Seq::<(ClientId, Seq<char>)>::empty());
    assert(client_views(clients@) =~= client_views(old(clients)@).push(new_client(id, name@)));
}

/// Accepts or refuses a request.
pub fn accept(
    clients: &mut Vec<Client>,
    src: ClientId,
    seqid: u128,
    workproof_holds: bool,
) -> (r: Option<ClientError>)
    ensures
        (client_views(final(clients)@), r) == sequenced(
            client_views(old(clients)@),
            src,
            seqid,
            workproof_holds,
        ),
{
    if !workproof_holds {
        return Some(ClientError::WorkProofError);
    }
    match find(clients, src) {
        None => Some(ClientError::UnknownClient),
        Some(i) => {
            if clients[i].last_seen >= seqid {
                return Some(ClientError::SequenceError);
            }
            let ghost before = client_views(clients@);
            clients[i].last_seen = seqid;
            assert(client_views(clients@) =~= before.update(
                i as int,
                ClientView { last_seen: seqid, ..before[i as int] },
            ));
            None
        },
    }
}

/// Accepts or refuses a request, and hands out its content if it was accepted.
pub fn open_request<A>(
    clients: &mut Vec<Client>,
    sequence: Sequence<A>,
    workproof_holds: bool,
) -> (r: Result<A, ClientError>)
    ensures
        ({
            let (after, refusal) = sequenced(
                client_views(old(clients)@),
                sequence.src,
                sequence.seqid,
                workproof_holds,
            );
            &&& client_views(final(clients)@) == after
            &&& r == answer(sequence.content, refusal)
        }),
{
    match accept(clients, sequence.src, sequence.seqid, workproof_holds) {
        None => Ok(sequence.content),
        Some(err) => Err(err),
    }
}

/// Hands a client its oldest text.
pub fn poll(clients: &mut Vec<Client>, id: ClientId) -> (r: ClientPollReply)
    ensures
        (client_views(final(clients)@), r@) == polled(client_views(old(clients)@), id),
{
    match find(clients, id) {
        None => ClientPollReply::Nothing,
        Some(i) => {
            let ghost before = client_views(clients@);
            if clients[i].mailbox.len() == 0 {
                return ClientPollReply::Nothing;
            }
            let (src, content) = clients[i].mailbox.remove(0);
            proof {
                let mailbox = before[i as int].mailbox;
                assert(clients@[i as int]@.mailbox =~= mailbox.drop_first());
                assert(client_views(clients@) =~= before.update(
                    i as int,
                    ClientView { mailbox: mailbox.drop_first(), ..before[i as int] },
                ));
            }
            ClientPollReply::Message { src, content }
        },
    }
}

/// Puts a text into the mailbox of a client.
pub fn deliver(
    clients: &mut Vec<Client>,
    limit: usize,
    src: ClientId,
    dest: ClientId,
    content: String,
) -> (r: Delivery)
    ensures
        (client_views(final(clients)@), r) == delivered(
            client_views(old(clients)@),
            limit as nat,
            src,
            dest,
            content@,
        ),
{
    match find(clients, dest) {
        None => Delivery::NotLocal,
        Some(i) => {
            let ghost before = client_views(clients@);
            if clients[i].mailbox.len() >= limit {
                return Delivery::BoxFull;
            }
            let ghost text = content@;
            clients[i].mailbox.push((src, content));
            proof {
                let mailbox = before[i as int].mailbox;
                assert(clients@[i as int]@.mailbox =~= mailbox.push((src, text)));
                assert(client_views(clients@) =~= before.update(
                    i as int,
                    ClientView { mailbox: mailbox.push((src, text)), ..before[i as int] },
                ));
            }
            Delivery::Done
        },
    }
}

/// Whether all destinations of a message are registered.
pub fn are_local(clients: &Vec<Client>, dsts: &Vec<(ClientId, ServerId)>) -> (r: bool)
    ensures
        r == all_local(client_views(clients@), dsts@),
{
    let mut i: usize = 0;
    while i < dsts.len()
        invariant
            i <= dsts@.len(),
            forall|j: int|
                0 <= j < i ==> is_local(client_views(clients@), (#[trigger] dsts@[j]).0),
        decreases dsts@.len() - i,
    {
        if find(clients, dsts[i].0).is_none() {
            assert(!is_local(client_views(clients@), dsts@[i as int].0));
            return false;
        }
        i = i + 1;
    }
    true
}

/// Puts a text into the mailboxes of those of its destinations that are
/// registered.
pub fn deliver_to(
    clients: &mut Vec<Client>,
    limit: usize,
    src: ClientId,
    dsts: &Vec<(ClientId, ServerId)>,
    content: &String,
)
    ensures
        client_views(final(clients)@) == delivered_to(
            client_views(old(clients)@),
            limit as nat,
            src,
            dsts@,
            content@,
        ),
{
    let ghost before = client_views(clients@);
    let mut i: usize = 0;
    while i < dsts.len()
        invariant
            i <= dsts@.len(),
            client_views(clients@) == delivered_to(
                before,
                limit as nat,
                src,
                dsts@.take(i as int),
                content@,
            ),
        decreases dsts@.len() - i,
    {
        deliver(clients, limit, src, dsts[i].0, content.clone());
        assert(dsts@.take(i + 1).drop_last() =~= dsts@.take(i as int));
        i = i + 1;
    }
    assert(dsts@.take(i as int) =~= dsts@);
}

/// The names of the registered clients. Of two clients with the same
/// identifier the later one counts.
pub fn users(clients: &Vec<Client>) -> (r: HashMap<u128, String>)
    ensures
        messages::names(r@) == client_names(client_views(clients@)),
{
    broadcast use vstd::std_specs::hash::group_hash_axioms;

    let ghost all = client_views(clients@);
    let mut users: HashMap<u128, String> = HashMap::new();
    let mut i: usize = 0;
    assert(messages::names(users@) =~= Map::<u128, Seq<char>>::empty());
    while i < clients.len()
        invariant
            i <= clients@.len(),
            all == client_views(clients@),
            messages::names(users@) == client_names(all.take(i as int)),
        decreases clients@.len() - i,
    {
        let ghost before = users@;
        users.insert(clients[i].id.0, clients[i].name.clone());
        proof {
            assert(all.take(i + 1).drop_last() =~= all.take(i as int));
            assert(messages::names(users@) =~= messages::names(before).insert(
                all[i as int].id.0,
                all[i as int].name,
            ));
        }
        i = i + 1;
    }
    assert(all.take(i as int) =~= all);
    users
}

/// A view of a client has its identifier, its name, the number of its last
/// request, and the senders and texts of its mailbox, in order.
pub proof fn law_client_view(clients: Seq<Client>, i: int, j: int)
    ensures
        client_views(clients).len() == clients.len(),
        0 <= i < clients.len() ==> {
            let client = client_views(clients)[i];
            &&& client.id == clients[i].id
            &&& client.name == clients[i].name@
            &&& client.last_seen == clients[i].last_seen
            &&& client.mailbox.len() == clients[i].mailbox@.len()
            &&& 0 <= j < client.mailbox.len() ==> client.mailbox[j] == (
                clients[i].mailbox@[j].0,
                clients[i].mailbox@[j].1@,
            )
        },
{
}

} // verus!
