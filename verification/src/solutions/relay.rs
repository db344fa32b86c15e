//! What servers know of the clients of other servers, and the texts that wait
//! for clients.
use crate::messages;
use crate::messages::{ClientId, ServerId};
use crate::walk;
use std::collections::HashMap;
use vstd::prelude::*;

verus! {

/// A text that waits until its destination is known.
pub struct Stored {
    /// Who sent it.
    pub src: ClientId,
    /// Whom it is for.
    pub dst: ClientId,
    /// The text.
    pub content: String,
}

/// What a [`Stored`] text is.
pub struct StoredView {
    pub src: ClientId,
    pub dst: ClientId,
    pub content: Seq<char>,
}

impl View for Stored {
    type V = StoredView;

    open spec fn view(&self) -> StoredView {
        StoredView { src: self.src, dst: self.dst, content: self.content@ }
    }
}

/// What stored texts are, in order.
pub open spec fn stored_views(stored: Seq<Stored>) -> Seq<StoredView> {
    stored.map_values(|m: Stored| m@)
}

/// A client of another server.
pub struct ClientInfo {
    /// Its name.
    pub name: String,
    /// The last server of the route over which it was announced.
    pub server: ServerId,
}

/// What a [`ClientInfo`] says.
pub struct ClientInfoView {
    pub name: Seq<char>,
    pub server: ServerId,
}

impl View for ClientInfo {
    type V = ClientInfoView;

    open spec fn view(&self) -> ClientInfoView {
        ClientInfoView { name: self.name@, server: self.server }
    }
}

/// What is known of the clients of other servers.
pub open spec fn info_views(remote: Map<u128, ClientInfo>) -> Map<u128, ClientInfoView> {
    remote.map_values(|c: ClientInfo| c@)
}

/// The names of the clients of other servers.
pub open spec fn remote_names(remote: Map<u128, ClientInfoView>) -> Map<u128, Seq<char>> {
    remote.map_values(|c: ClientInfoView| c.name)
}

/// Clients that were announced over a route.
pub open spec fn infos(clients: Map<u128, Seq<char>>, server: ServerId) -> Map<
    u128,
    ClientInfoView,
> {
    clients.map_values(|name: Seq<char>| ClientInfoView { name, server })
}

/// The stored texts for clients among `clients`.
pub open spec fn due(stored: Seq<StoredView>, clients: Map<u128, Seq<char>>) -> Seq<StoredView> {
    stored.filter(|m: StoredView| clients.contains_key(m.dst.0))
}

/// The stored texts for clients that are not among `clients`.
pub open spec fn kept(stored: Seq<StoredView>, clients: Map<u128, Seq<char>>) -> Seq<StoredView> {
    stored.filter(|m: StoredView| !clients.contains_key(m.dst.0))
}

/// A text that is kept was stored, and is for none of `clients`.
pub proof fn lemma_kept(stored: Seq<StoredView>, clients: Map<u128, Seq<char>>, i: int)
    requires
        0 <= i < kept(stored, clients).len(),
    ensures
        !clients.contains_key(kept(stored, clients)[i].dst.0),
        stored.contains(kept(stored, clients)[i]),
    decreases stored.len(),
{
    reveal(Seq::filter);
    if stored.len() > 0 {
        let front = stored.drop_last();
        if i < kept(front, clients).len() {
            lemma_kept(front, clients, i);
            let j = front.index_of(kept(front, clients)[i]);
            assert(stored[j] == front[j]);
        } else {
            assert(stored[stored.len() - 1] == stored.last());
        }
    }
}

/// A text that is due is stored, and is for one of `clients`.
pub proof fn lemma_due(stored: Seq<StoredView>, clients: Map<u128, Seq<char>>, i: int)
    requires
        0 <= i < due(stored, clients).len(),
    ensures
        clients.contains_key(due(stored, clients)[i].dst.0),
        stored.contains(due(stored, clients)[i]),
    decreases stored.len(),
{
    reveal(Seq::filter);
    if stored.len() > 0 {
        let front = stored.drop_last();
        if i < due(front, clients).len() {
            lemma_due(front, clients, i);
            let j = front.index_of(due(front, clients)[i]);
            assert(stored[j] == front[j]);
        } else {
            assert(stored[stored.len() - 1] == stored.last());
        }
    }
}

/// Of no texts none is due and none is kept.
proof fn lemma_split_nothing(clients: Map<u128, Seq<char>>)
    ensures
        due(seq![], clients) == Seq::<StoredView>::empty(),
        kept(seq![], clients) == Seq::<StoredView>::empty(),
{
    reveal(Seq::filter);
}

/// The next text is due, or it is kept.
proof fn lemma_split(stored: Seq<StoredView>, clients: Map<u128, Seq<char>>, i: int)
    requires
        0 <= i < stored.len(),
    ensures
        clients.contains_key(stored[i].dst.0) ==> {
            &&& due(stored.take(i + 1), clients) == due(stored.take(i), clients).push(stored[i])
            &&& kept(stored.take(i + 1), clients) == kept(stored.take(i), clients)
        },
        !clients.contains_key(stored[i].dst.0) ==> {
            &&& due(stored.take(i + 1), clients) == due(stored.take(i), clients)
            &&& kept(stored.take(i + 1), clients) == kept(stored.take(i), clients).push(stored[i])
        },
{
    reveal(Seq::filter);
    assert(stored.take(i + 1).drop_last() =~= stored.take(i));
}

/// The server over which a client of another server was announced.
pub fn server_of(remote: &HashMap<u128, ClientInfo>, client_id: ClientId) -> (r: Option<ServerId>)
    ensures
        r == (if info_views(remote@).contains_key(client_id.0) {
            Some(info_views(remote@)[client_id.0].server)
        } else {
            None
        }),
{
    broadcast use vstd::std_specs::hash::group_hash_axioms;

    match remote.get(&client_id.0) {
        Some(info) => Some(info.server),
        None => None,
    }
}

/// Stores clients that were announced over a route with `server` at its end.
pub fn learn(
    remote: &mut HashMap<u128, ClientInfo>,
    clients: &HashMap<u128, String>,
    server: ServerId,
)
    ensures
        info_views(final(remote)@) == info_views(old(remote)@).union_prefer_right(
            infos(messages::names(clients@), server),
        ),
{
    broadcast use vstd::std_specs::hash::group_hash_axioms;

    let ghost before = info_views(remote@);
    let order = walk::walk(clients);
    let ghost listed = walk::entries(order@);
    let ghost info = |name: String| ClientInfoView { name: name@, server };
    let ghost added = walk::with_values(listed, info);
    let mut i: usize = 0;
    assert(added.take(0) =~= seq![]);
    while i < order.len()
        invariant
            i <= order@.len(),
            listed == walk::entries(order@),
            info == (|name: String| ClientInfoView { name: name@, server }),
            added == walk::with_values(listed, info),
            info_views(remote@) == walk::inserted(before, added.take(i as int)),
        decreases order@.len() - i,
    {
        let ghost sofar = info_views(remote@);
        let (id, name) = order[i];
        remote.insert(id, ClientInfo { name: name.clone(), server });
        assert(info_views(remote@) =~= sofar.insert(id, ClientInfoView { name: name@, server }));
        assert(added.take(i + 1).drop_last() =~= added.take(i as int));
        i = i + 1;
    }
    proof {
        assert(added.take(i as int) =~= added);
        walk::law_values(listed, clients@, info);
        walk::law_inserted(before, added, clients@.map_values(info));
        assert(clients@.map_values(info) =~= infos(messages::names(clients@), server));
    }
}

/// Takes the texts for the given clients out of the stored ones.
pub fn take_due(stored: &mut Vec<Stored>, clients: &HashMap<u128, String>) -> (r: Vec<Stored>)
    ensures
        stored_views(final(stored)@) == kept(
            stored_views(old(stored)@),
            messages::names(clients@),
        ),
        stored_views(r@) == due(stored_views(old(stored)@), messages::names(clients@)),
{
    broadcast use vstd::std_specs::hash::group_hash_axioms;

    let ghost all = stored_views(stored@);
    let ghost named = messages::names(clients@);
    let ghost mut done: int = 0;
    let mut texts: Vec<Stored> = Vec::new();
    let mut i: usize = 0;
    proof {
        lemma_split_nothing(named);
        assert(all.take(0) =~= seq![]);
        assert(stored_views(stored@) =~= kept(all.take(0), named) + all.skip(0));
        assert(stored_views(texts@) =~= due(all.take(0), named));
    }
    while i < stored.len()
        invariant
            i <= stored@.len(),
            0 <= done <= all.len(),
            named == messages::names(clients@),
            i == kept(all.take(done), named).len(),
            stored_views(stored@) == kept(all.take(done), named) + all.skip(done),
            stored_views(texts@) == due(all.take(done), named),
        decreases stored@.len() - i,
    {
        let ghost rest = kept(all.take(done), named);
        let ghost taken = due(all.take(done), named);
        let ghost now = stored_views(stored@);
        proof {
            assert(now.len() == stored@.len());
            assert(now[i as int] == all.skip(done)[0]);
            assert(stored@[i as int]@ == all[done]);
            lemma_split(all, named, done);
        }
        if clients.contains_key(&stored[i].dst.0) {
            let message = stored.remove(i);
            assert(stored_views(stored@) =~= now.remove(i as int));
            assert(now.remove(i as int) =~= rest + all.skip(done + 1));
            texts.push(message);
            assert(stored_views(texts@) =~= taken.push(all[done]));
        } else {
            assert(now =~= rest.push(all[done]) + all.skip(done + 1));
            i = i + 1;
        }
        proof {
            done = done + 1;
        }
    }
    proof {
        assert(stored_views(stored@).len() == stored@.len());
        assert(all.take(done) =~= all);
        assert(stored_views(stored@) =~= kept(all, named));
    }
    texts
}

/// The views of stored texts have the sender, the destination and the content of
/// each, in order.
pub proof fn law_stored_view(stored: Seq<Stored>, i: int)
    ensures
        stored_views(stored).len() == stored.len(),
        0 <= i < stored.len() ==> {
            &&& stored_views(stored)[i].src == stored[i].src
            &&& stored_views(stored)[i].dst == stored[i].dst
            &&& stored_views(stored)[i].content == stored[i].content@
        },
{
}

/// What is known of the clients of other servers is the name and the server of
/// each.
pub proof fn law_info_view(remote: Map<u128, ClientInfo>, k: u128)
    ensures
        info_views(remote).contains_key(k) <==> remote.contains_key(k),
        remote.contains_key(k) ==> info_views(remote)[k].name == remote[k].name@
            && info_views(remote)[k].server == remote[k].server,
{
}

} // verus!
