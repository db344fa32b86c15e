//! What holds of the texts that wait for clients.
use super::relay;
use super::relay::StoredView;
use crate::messages::ClientId;
use vstd::prelude::*;

verus! {

/// The stored texts for a client.
pub open spec fn stored_for(stored: Seq<StoredView>, id: ClientId) -> Seq<StoredView> {
    stored.filter(|m: StoredView| m.dst == id)
}

/// A text that is stored comes after the others for its destination.
pub proof fn lemma_stored_push(stored: Seq<StoredView>, m: StoredView, id: ClientId)
    ensures
        stored_for(stored, id).is_prefix_of(stored_for(stored.push(m), id)),
        m.dst == id ==> stored_for(stored.push(m), id) == stored_for(stored, id).push(m),
{
    reveal(Seq::filter);
    assert(stored.push(m).drop_last() =~= stored);
}

/// Texts for other clients than those of an announcement are kept.
pub proof fn lemma_stored_kept(
    stored: Seq<StoredView>,
    clients: Map<u128, Seq<char>>,
    id: ClientId,
)
    requires
        !clients.contains_key(id.0),
    ensures
        stored_for(relay::kept(stored, clients), id) == stored_for(stored, id),
    decreases stored.len(),
{
    reveal(Seq::filter);
    if stored.len() > 0 {
        let front = stored.drop_last();
        let rest = relay::kept(front, clients);
        lemma_stored_kept(front, clients, id);
        if !clients.contains_key(stored.last().dst.0) {
            assert(rest.push(stored.last()).drop_last() =~= rest);
        }
    }
}

/// A stored text for an announced client is due.
pub proof fn lemma_due(
    stored: Seq<StoredView>,
    clients: Map<u128, Seq<char>>,
    dest: ClientId,
    i: int,
)
    requires
        clients.contains_key(dest.0),
        0 <= i < stored_for(stored, dest).len(),
    ensures
        relay::due(stored, clients).contains(stored_for(stored, dest)[i]),
    decreases stored.len(),
{
    reveal(Seq::filter);
    if stored.len() > 0 {
        let front = stored.drop_last();
        let list = relay::due(stored, clients);
        if i < stored_for(front, dest).len() {
            lemma_due(front, clients, dest, i);
            let j = relay::due(front, clients).index_of(stored_for(front, dest)[i]);
            assert(list[j] == relay::due(front, clients)[j]);
        } else {
            assert(list[list.len() - 1] == stored.last());
        }
    }
}

/// An announcement hands out or keeps each stored text, and none is lost or
/// doubled.
pub proof fn law_texts_are_handed_out_or_kept(
    stored: Seq<StoredView>,
    clients: Map<u128, Seq<char>>,
)
    ensures
        relay::due(stored, clients).to_multiset().add(
            relay::kept(stored, clients).to_multiset(),
        ) =~= stored.to_multiset(),
    decreases stored.len(),
{
    broadcast use vstd::seq_lib::group_to_multiset_ensures;

    reveal(Seq::filter);
    if stored.len() > 0 {
        let front = stored.drop_last();
        law_texts_are_handed_out_or_kept(front, clients);
        assert(stored =~= front.push(stored.last()));
    } else {
        assert(relay::due(stored, clients) =~= stored);
        assert(relay::kept(stored, clients) =~= stored);
    }
}

} // verus!
