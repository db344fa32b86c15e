//! What holds of registered clients and their mailboxes.
use super::registry;
use super::registry::{ClientView, Delivery};
use crate::messages::{ClientError, ClientId, ClientPollReplyView, ServerId};
use vstd::prelude::*;

verus! {

/// The mailbox of a client.
pub open spec fn mailbox(clients: Seq<ClientView>, id: ClientId) -> Seq<(ClientId, Seq<char>)> {
    match registry::position(clients, id) {
        Some(i) => clients[i as int].mailbox,
        None => seq![],
    }
}

/// The number of the last request that was accepted from a client.
pub open spec fn last_seen(clients: Seq<ClientView>, id: ClientId) -> u128 {
    match registry::position(clients, id) {
        Some(i) => clients[i as int].last_seen,
        None => 0,
    }
}

/// The name of a client.
pub open spec fn name(clients: Seq<ClientView>, id: ClientId) -> Seq<char> {
    match registry::position(clients, id) {
        Some(i) => clients[i as int].name,
        None => seq![],
    }
}

/// Whether clients came from others by operations of a server: no client went
/// away, none was renamed, and no number of a last request went down.
pub open spec fn follows(before: Seq<ClientView>, after: Seq<ClientView>) -> bool {
    &&& before.len() <= after.len()
    &&& forall|i: int|
        0 <= i < before.len() ==> {
            &&& (#[trigger] after[i]).id == before[i].id
            &&& after[i].name == before[i].name
            &&& after[i].last_seen >= before[i].last_seen
        }
}

/// A client keeps its place when others are registered after it.
proof fn lemma_position_extended(before: Seq<ClientView>, after: Seq<ClientView>, id: ClientId)
    requires
        before.len() <= after.len(),
        forall|i: int| 0 <= i < before.len() ==> (#[trigger] after[i]).id == before[i].id,
        registry::is_local(before, id),
    ensures
        registry::position(after, id) == registry::position(before, id),
    decreases after.len(),
{
    if before.len() < after.len() {
        lemma_position_extended(before, after.drop_last(), id);
    } else {
        registry::lemma_position_kept(before, after, id);
    }
}

/// A registered client stays registered under its name, whatever a server
/// does.
pub proof fn law_stays(before: Seq<ClientView>, after: Seq<ClientView>, id: ClientId)
    requires
        follows(before, after),
        registry::is_local(before, id),
    ensures
        registry::is_local(after, id),
        name(after, id) == name(before, id),
        last_seen(after, id) >= last_seen(before, id),
{
    lemma_position_extended(before, after, id);
    registry::law_position(before, id);
}

/// What follows what follows clients follows them too.
pub proof fn law_follows_is_transitive(
    a: Seq<ClientView>,
    b: Seq<ClientView>,
    c: Seq<ClientView>,
)
    requires
        follows(a, b),
        follows(b, c),
    ensures
        follows(a, c),
{
    assert forall|i: int| 0 <= i < a.len() implies {
        &&& (#[trigger] c[i]).id == a[i].id
        &&& c[i].name == a[i].name
        &&& c[i].last_seen >= a[i].last_seen
    } by {
        assert(b[i].id == a[i].id);
    }
}

/// A request is accepted exactly if its proof of work holds, its client is
/// registered, and its number is above that of the last accepted request; and
/// the first of these that fails is the reason for which it is refused.
pub proof fn law_request(
    clients: Seq<ClientView>,
    src: ClientId,
    seqid: u128,
    workproof_holds: bool,
)
    ensures
        registry::sequenced(clients, src, seqid, workproof_holds).1 == (if !workproof_holds {
            Some(ClientError::WorkProofError)
        } else if !registry::is_local(clients, src) {
            Some(ClientError::UnknownClient)
        } else if seqid <= last_seen(clients, src) {
            Some(ClientError::SequenceError)
        } else {
            None
        }),
{
}

/// A refused request changes nothing.
pub proof fn law_refused_request(
    clients: Seq<ClientView>,
    src: ClientId,
    seqid: u128,
    workproof_holds: bool,
)
    requires
        registry::sequenced(clients, src, seqid, workproof_holds).1 is Some,
    ensures
        registry::sequenced(clients, src, seqid, workproof_holds).0 == clients,
{
}

/// An accepted request sets the number of its client, and of no other.
pub proof fn law_accepted_request(
    clients: Seq<ClientView>,
    src: ClientId,
    seqid: u128,
    other: ClientId,
)
    requires
        registry::sequenced(clients, src, seqid, true).1 is None,
    ensures
        last_seen(registry::sequenced(clients, src, seqid, true).0, src) == seqid,
        other != src ==> last_seen(registry::sequenced(clients, src, seqid, true).0, other)
            == last_seen(clients, other),
{
    let after = registry::sequenced(clients, src, seqid, true).0;
    registry::law_position(clients, src);
    registry::law_position(clients, other);
    registry::lemma_position_kept(clients, after, src);
    registry::lemma_position_kept(clients, after, other);
}

/// A number that was accepted from a client is refused from then on, and so is
/// every lower one, whatever a server does in between.
pub proof fn law_number_is_used_once(
    clients: Seq<ClientView>,
    src: ClientId,
    accepted: u128,
    later: Seq<ClientView>,
    seqid: u128,
)
    requires
        seqid <= accepted,
        registry::sequenced(clients, src, accepted, true).1 is None,
        follows(registry::sequenced(clients, src, accepted, true).0, later),
    ensures
        registry::sequenced(later, src, seqid, true) == (later, Some(ClientError::SequenceError)),
{
    let after = registry::sequenced(clients, src, accepted, true).0;
    law_accepted_request(clients, src, accepted, src);
    registry::law_request_keeps(clients, 0, src, accepted, true);
    assert(registry::is_local(after, src) == registry::is_local(clients, src));
    law_stays(after, later, src);
    law_request(later, src, seqid, true);
}

/// A text is delivered exactly if its destination is registered and its
/// mailbox is not full; then it stands at the end of that mailbox, and every
/// other mailbox is as it was. A text that is not delivered changes nothing.
pub proof fn law_delivery(
    clients: Seq<ClientView>,
    limit: nat,
    src: ClientId,
    dest: ClientId,
    content: Seq<char>,
    other: ClientId,
)
    ensures
        ({
            let (after, delivery) = registry::delivered(clients, limit, src, dest, content);
            &&& delivery == (if !registry::is_local(clients, dest) {
                Delivery::NotLocal
            } else if mailbox(clients, dest).len() >= limit {
                Delivery::BoxFull
            } else {
                Delivery::Done
            })
            &&& delivery is Done ==> mailbox(after, dest) == mailbox(clients, dest).push(
                (src, content),
            )
            &&& delivery !is Done ==> after == clients
            &&& other != dest ==> mailbox(after, other) == mailbox(clients, other)
        }),
{
    let after = registry::delivered(clients, limit, src, dest, content).0;
    registry::law_position(clients, dest);
    registry::law_position(clients, other);
    registry::law_delivery_keeps(clients, limit, src, dest, content);
    registry::lemma_position_kept(clients, after, dest);
    registry::lemma_position_kept(clients, after, other);
}

/// A poll gives the oldest text of the client's mailbox, which leaves it, and
/// nothing exactly if there is none; every other mailbox stays as it was.
pub proof fn law_poll(clients: Seq<ClientView>, id: ClientId, other: ClientId)
    ensures
        ({
            let (after, answer) = registry::polled(clients, id);
            let waiting = mailbox(clients, id);
            &&& waiting.len() == 0 ==> answer is Nothing && after == clients
            &&& waiting.len() > 0 ==> answer == (ClientPollReplyView::Message {
                src: waiting[0].0,
                content: waiting[0].1,
            }) && mailbox(after, id) == waiting.drop_first()
            &&& other != id ==> mailbox(after, other) == mailbox(clients, other)
        }),
{
    let after = registry::polled(clients, id).0;
    registry::law_position(clients, id);
    registry::law_position(clients, other);
    registry::law_poll_keeps(clients, 0, id);
    registry::lemma_position_kept(clients, after, id);
    registry::lemma_position_kept(clients, after, other);
}

/// The clients after several texts for one of them came, one after the other.
pub open spec fn delivered_all(
    clients: Seq<ClientView>,
    limit: nat,
    dest: ClientId,
    sent: Seq<(ClientId, Seq<char>)>,
) -> Seq<ClientView>
    decreases sent.len(),
{
    if sent.len() == 0 {
        clients
    } else {
        let before = delivered_all(clients, limit, dest, sent.drop_last());
        registry::delivered(before, limit, sent.last().0, dest, sent.last().1).0
    }
}

/// The clients after one of them polled `n` times, and the answers.
pub open spec fn polled_all(clients: Seq<ClientView>, id: ClientId, n: nat) -> (
    Seq<ClientView>,
    Seq<ClientPollReplyView>,
)
    decreases n,
{
    if n == 0 {
        (clients, seq![])
    } else {
        let (before, answers) = polled_all(clients, id, (n - 1) as nat);
        let (after, answer) = registry::polled(before, id);
        (after, answers.push(answer))
    }
}

/// Texts that find room fill the mailbox in order.
proof fn lemma_fill(
    clients: Seq<ClientView>,
    limit: nat,
    dest: ClientId,
    sent: Seq<(ClientId, Seq<char>)>,
)
    requires
        registry::is_local(clients, dest),
        mailbox(clients, dest).len() + sent.len() <= limit,
    ensures
        registry::is_local(delivered_all(clients, limit, dest, sent), dest),
        mailbox(delivered_all(clients, limit, dest, sent), dest) == mailbox(clients, dest) + sent,
    decreases sent.len(),
{
    if sent.len() > 0 {
        let front = sent.drop_last();
        let before = delivered_all(clients, limit, dest, front);
        let (src, content) = sent.last();
        lemma_fill(clients, limit, dest, front);
        law_delivery(before, limit, src, dest, content, dest);
        registry::law_delivery_keeps(before, limit, src, dest, content);
        let after = delivered_all(clients, limit, dest, sent);
        assert(registry::is_local(after, dest) == registry::is_local(before, dest));
        assert(mailbox(after, dest) =~= mailbox(clients, dest) + sent);
    } else {
        assert(mailbox(clients, dest) + sent =~= mailbox(clients, dest));
    }
}

/// Polls empty the mailbox in order.
proof fn lemma_drain(clients: Seq<ClientView>, id: ClientId, n: nat)
    requires
        n <= mailbox(clients, id).len(),
    ensures
        mailbox(polled_all(clients, id, n).0, id) == mailbox(clients, id).skip(n as int),
        polled_all(clients, id, n).1 == Seq::new(
            n,
            |i: int|
                ClientPollReplyView::Message {
                    src: mailbox(clients, id)[i].0,
                    content: mailbox(clients, id)[i].1,
                },
        ),
    decreases n,
{
    let all = mailbox(clients, id);
    if n > 0 {
        let before = polled_all(clients, id, (n - 1) as nat).0;
        lemma_drain(clients, id, (n - 1) as nat);
        law_poll(before, id, id);
        assert(all.skip(n - 1).drop_first() =~= all.skip(n as int));
    } else {
        assert(all.skip(0) =~= all);
    }
}

/// A mailbox is a queue: texts that find room in it are handed out in the
/// order in which they came, after those that were in it before, each once.
pub proof fn law_mailbox_is_a_queue(
    clients: Seq<ClientView>,
    limit: nat,
    dest: ClientId,
    sent: Seq<(ClientId, Seq<char>)>,
)
    requires
        registry::is_local(clients, dest),
        mailbox(clients, dest).len() + sent.len() <= limit,
    ensures
        ({
            let all = mailbox(clients, dest) + sent;
            let filled = delivered_all(clients, limit, dest, sent);
            let (after, answers) = polled_all(filled, dest, all.len());
            &&& answers == Seq::new(
                all.len(),
                |i: int| ClientPollReplyView::Message { src: all[i].0, content: all[i].1 },
            )
            &&& registry::polled(after, dest) == (after, ClientPollReplyView::Nothing)
        }),
{
    let all = mailbox(clients, dest) + sent;
    let filled = delivered_all(clients, limit, dest, sent);
    lemma_fill(clients, limit, dest, sent);
    lemma_drain(filled, dest, all.len());
    let after = polled_all(filled, dest, all.len()).0;
    law_poll(after, dest, dest);
    registry::law_position(after, dest);
}

/// The names of clients are listed under their identifiers, and nothing else
/// is.
pub proof fn law_names(clients: Seq<ClientView>, id: ClientId)
    ensures
        registry::client_names(clients).contains_key(id.0) <==> registry::is_local(clients, id),
    decreases clients.len(),
{
    if clients.len() > 0 {
        law_names(clients.drop_last(), id);
    }
}

/// The name of a client is listed, if nobody else has its identifier.
pub proof fn law_name_is_listed(clients: Seq<ClientView>, i: int)
    requires
        0 <= i < clients.len(),
        forall|j: int| i < j < clients.len() ==> (#[trigger] clients[j]).id != clients[i].id,
    ensures
        registry::client_names(clients).contains_key(clients[i].id.0),
        registry::client_names(clients)[clients[i].id.0] == clients[i].name,
    decreases clients.len(),
{
    if i < clients.len() - 1 {
        let front = clients.drop_last();
        assert(clients[clients.len() - 1].id != clients[i].id);
        assert forall|j: int| i < j < front.len() implies (#[trigger] front[j]).id
            != front[i].id by {
            assert(clients[j].id != clients[i].id);
        }
        law_name_is_listed(front, i);
    }
}

/// Whether the client at `i` is the first with an identifier.
pub open spec fn is_first(clients: Seq<ClientView>, id: ClientId, i: int) -> bool {
    &&& 0 <= i < clients.len()
    &&& clients[i].id == id
    &&& forall|j: int| 0 <= j < i ==> (#[trigger] clients[j]).id != id
}

/// Whether no client has an identifier.
pub open spec fn is_absent(clients: Seq<ClientView>, id: ClientId) -> bool {
    forall|j: int| 0 <= j < clients.len() ==> (#[trigger] clients[j]).id != id
}

/// A client is found at the first place where its identifier stands, and
/// nowhere exactly if it stands nowhere.
pub proof fn law_found(clients: Seq<ClientView>, id: ClientId, i: int)
    ensures
        is_first(clients, id, i) <==> registry::position(clients, id) == Some(i as nat) && i >= 0,
        is_absent(clients, id) <==> registry::position(clients, id) is None,
        registry::is_local(clients, id) <==> !is_absent(clients, id),
{
    registry::law_position(clients, id);
    if let Some(k) = registry::position(clients, id) {
        assert(clients[k as int].id == id);
        if is_first(clients, id, i) {
            assert(!(i < k));
            assert(!(k < i));
        }
    }
}

/// Where a client comes first, and whether it comes at all, is the same when
/// clients change but keep their identifiers.
pub proof fn lemma_first_kept(
    before: Seq<ClientView>,
    after: Seq<ClientView>,
    id: ClientId,
    i: int,
)
    requires
        before.len() == after.len(),
        forall|j: int| 0 <= j < before.len() ==> (#[trigger] after[j]).id == before[j].id,
    ensures
        is_first(after, id, i) == is_first(before, id, i),
        is_absent(after, id) == is_absent(before, id),
{
    assert forall|j: int| 0 <= j < before.len() implies (#[trigger] before[j]).id
        == after[j].id by {
        assert(after[j].id == before[j].id);
    }
}

/// How often a client is among destinations.
pub open spec fn times(dest: Seq<ClientId>, id: ClientId) -> nat {
    dest.filter(|d: ClientId| d == id).len()
}

/// How often a client is among destinations with their servers.
pub open spec fn times_at(dsts: Seq<(ClientId, ServerId)>, id: ClientId) -> nat {
    dsts.filter(|d: (ClientId, ServerId)| d.0 == id).len()
}

/// All destinations are registered exactly if the identifier of each of them
/// stands among the clients.
pub proof fn law_all_local(clients: Seq<ClientView>, dsts: Seq<(ClientId, ServerId)>)
    ensures
        registry::all_local(clients, dsts) <==> forall|i: int|
            0 <= i < dsts.len() ==> !is_absent(clients, (#[trigger] dsts[i]).0),
{
    assert forall|i: int| 0 <= i < dsts.len() implies registry::is_local(
        clients,
        (#[trigger] dsts[i]).0,
    ) == !is_absent(clients, dsts[i].0) by {
        law_found(clients, dsts[i].0, 0);
    }
}

/// A mailbox after the same text came `n` times: it takes as many as it has
/// room for.
pub open spec fn filled(
    mailbox: Seq<(ClientId, Seq<char>)>,
    limit: nat,
    entry: (ClientId, Seq<char>),
    n: nat,
) -> Seq<(ClientId, Seq<char>)> {
    let room: nat = if mailbox.len() < limit {
        (limit - mailbox.len()) as nat
    } else {
        0
    };
    mailbox + Seq::new(
        if n <= room {
            n
        } else {
            room
        },
        |k: int| entry,
    )
}

/// One text more fills a mailbox by one, if it has room.
pub proof fn lemma_filled(
    mailbox: Seq<(ClientId, Seq<char>)>,
    limit: nat,
    entry: (ClientId, Seq<char>),
    n: nat,
)
    ensures
        filled(mailbox, limit, entry, 0) == mailbox,
        filled(mailbox, limit, entry, n + 1) == if filled(mailbox, limit, entry, n).len() < limit {
            filled(mailbox, limit, entry, n).push(entry)
        } else {
            filled(mailbox, limit, entry, n)
        },
        filled(mailbox, limit, entry, n).len() < limit <==> mailbox.len() + n < limit,
{
    assert(filled(mailbox, limit, entry, 0) =~= mailbox);
    if mailbox.len() + n < limit {
        assert(filled(mailbox, limit, entry, n + 1) =~= filled(mailbox, limit, entry, n).push(
            entry,
        ));
    } else {
        assert(filled(mailbox, limit, entry, n + 1) =~= filled(mailbox, limit, entry, n));
    }
}

/// What a text that came does to each client: it goes to the end of the
/// mailbox of the first client with the identifier of the destination, if that
/// has room, and nothing else changes.
pub proof fn law_delivered_at(
    clients: Seq<ClientView>,
    limit: nat,
    src: ClientId,
    dest: ClientId,
    content: Seq<char>,
    i: int,
)
    requires
        0 <= i < clients.len(),
    ensures
        ({
            let after = registry::delivered(clients, limit, src, dest, content).0;
            &&& after.len() == clients.len()
            &&& after[i] == if is_first(clients, dest, i) && clients[i].mailbox.len() < limit {
                ClientView { mailbox: clients[i].mailbox.push((src, content)), ..clients[i] }
            } else {
                clients[i]
            }
        }),
{
    law_found(clients, dest, i);
    registry::law_position(clients, dest);
}

/// What a text for several destinations does to each client: its mailbox takes
/// one copy for each time that the client is a destination, as far as it has
/// room, and nothing else changes. Of clients with the same identifier the
/// first one counts.
pub proof fn law_delivered_to(
    clients: Seq<ClientView>,
    limit: nat,
    src: ClientId,
    dsts: Seq<(ClientId, ServerId)>,
    content: Seq<char>,
    i: int,
)
    requires
        0 <= i < clients.len(),
    ensures
        ({
            let after = registry::delivered_to(clients, limit, src, dsts, content);
            let id = clients[i].id;
            let copies = times_at(dsts, id);
            &&& after.len() == clients.len()
            &&& after[i] == if is_first(clients, id, i) {
                ClientView {
                    mailbox: filled(clients[i].mailbox, limit, (src, content), copies),
                    ..clients[i]
                }
            } else {
                clients[i]
            }
        }),
    decreases dsts.len(),
{
    reveal(Seq::filter);
    let id = clients[i].id;
    let mailbox = clients[i].mailbox;
    let entry = (src, content);
    if dsts.len() == 0 {
        lemma_filled(mailbox, limit, entry, 0);
    } else {
        let front = dsts.drop_last();
        let dest = dsts.last().0;
        let before = registry::delivered_to(clients, limit, src, front, content);
        let copies = times_at(front, id);
        law_delivered_to(clients, limit, src, front, content, i);
        law_delivered_at(before, limit, src, dest, content, i);
        registry::law_deliveries_keep(clients, limit, src, front, content);
        lemma_first_kept(clients, before, dest, i);
        lemma_filled(mailbox, limit, entry, copies);
    }
}

/// The answer to a request is its content, or the reason of its refusal.
pub proof fn law_answer<A>(content: A, err: ClientError)
    ensures
        registry::answer(content, None) == Ok::<A, ClientError>(content),
        registry::answer(content, Some(err)) == Err::<A, ClientError>(err),
{
}

/// A number of a random identifier has 4 in the four bits for the version, and
/// 2 in the two bits for the variant.
pub proof fn law_random(id: u128)
    ensures
        registry::is_random(id) <==> (id >> 76) & 0xf == 4 && (id >> 62) & 0x3 == 2,
{
    assert(id & 0xf000_c000_0000_0000_0000 == 0x4000_8000_0000_0000_0000 <==> (id >> 76) & 0xf == 4
        && (id >> 62) & 0x3 == 2) by (bit_vector);
}

} // verus!
