//! The chain of events that descend from a root event through parent links.
use vstd::prelude::*;

use crate::ids::{ActorId, EventId};
use crate::seqs::firsts;
use crate::testing::entry::EventEntry;
use crate::testing::query::{copy_entries, distinct_receivers, id_is, id_key, parent_is, EventQuery, EventRecords};

verus! {

/// The ids of a sequence of deliveries.
pub open spec fn ids_of<E, T>(s: Seq<EventEntry<E, T>>) -> Seq<EventId> {
    s.map_values(|e: EventEntry<E, T>| e.spec_id())
}

/// `set` holds the root and every event whose parent it holds.
pub open spec fn closed_under<E, T>(s: Seq<EventEntry<E, T>>, root: EventId, set: Set<EventId>) -> bool {
    &&& set.contains(root)
    &&& forall|j: int|
        0 <= j < s.len() && (#[trigger] s[j]).spec_parent_id() is Some && set.contains(s[j].spec_parent_id()->0)
            ==> set.contains(s[j].spec_id())
}

/// Event `x` is the root or descends from it: every set closed under "child
/// of" holds it.
pub open spec fn in_chain<E, T>(s: Seq<EventEntry<E, T>>, root: EventId, x: EventId) -> bool {
    forall|set: Set<EventId>| #[trigger] closed_under(s, root, set) ==> set.contains(x)
}


/// The first delivery of event `id`, if any.
pub open spec fn first_delivery<E, T>(s: Seq<EventEntry<E, T>>, id: EventId) -> Option<EventEntry<E, T>> {
    if s.filter(id_is(id)).len() > 0 {
        Some(s.filter(id_is(id))[0])
    } else {
        None
    }
}

/// The name of the sender of event `id`, if it was delivered.
pub open spec fn sender_name<E, T>(s: Seq<EventEntry<E, T>>, id: EventId) -> Option<Seq<char>> {
    match first_delivery(s, id) {
        Some(e) => Some(e.spec_sender()@),
        None => None,
    }
}

/// The ids of the children of event `id`, in order of first delivery.
pub open spec fn child_ids<E, T>(s: Seq<EventEntry<E, T>>, id: EventId) -> Seq<EventId> {
    firsts(s.filter(parent_is(id)), id_key()).map_values(|e: EventEntry<E, T>| e.spec_id())
}

/// The names of the actors event `id` was delivered to, each once, in order of
/// first delivery.
pub open spec fn receiver_names<E, T>(s: Seq<EventEntry<E, T>>, id: EventId) -> Seq<Seq<char>> {
    distinct_receivers(s.filter(id_is(id))).map_values(|a: ActorId| a@)
}

/// The deliveries in `s` of the events listed in `ids`, in record order.
pub open spec fn deliveries_of<E, T>(s: Seq<EventEntry<E, T>>, ids: Seq<EventId>) -> Seq<EventEntry<E, T>> {
    s.filter(|e: EventEntry<E, T>| ids.contains(e.spec_id()))
}

/// The root belongs to its chain, and every other event of the chain was
/// delivered as the child of an event of the chain.
pub proof fn law_chain_events_descend_from_root<E, T>(s: Seq<EventEntry<E, T>>, root: EventId, x: EventId)
    ensures
        in_chain(s, root, root),
        in_chain(s, root, x) && x != root ==> exists|j: int|
            0 <= j < s.len() && (#[trigger] s[j]).spec_id() == x && s[j].spec_parent_id() is Some && in_chain(
                s,
                root,
                s[j].spec_parent_id()->0,
            ),
{
    assert forall|set: Set<EventId>| #[trigger] closed_under(s, root, set) implies set.contains(root) by {
    }
    let reached = Set::new(
        |y: EventId|
            y == root || exists|j: int|
                0 <= j < s.len() && (#[trigger] s[j]).spec_id() == y && s[j].spec_parent_id() is Some && in_chain(
                    s,
                    root,
                    s[j].spec_parent_id()->0,
                ),
    );
    assert(closed_under(s, root, reached)) by {
        assert forall|j: int|
            0 <= j < s.len() && (#[trigger] s[j]).spec_parent_id() is Some && reached.contains(s[j].spec_parent_id()->0)
                implies reached.contains(s[j].spec_id()) by {
            let p = s[j].spec_parent_id()->0;
            assert(in_chain(s, root, p)) by {
                if p != root {
                    let jj = choose|jj: int|
                        0 <= jj < s.len() && (#[trigger] s[jj]).spec_id() == p && s[jj].spec_parent_id() is Some && in_chain(
                            s,
                            root,
                            s[jj].spec_parent_id()->0,
                        );
                    assert forall|set: Set<EventId>| #[trigger] closed_under(s, root, set) implies set.contains(p) by {
                        assert(set.contains(s[jj].spec_parent_id()->0));
                    }
                }
            }
        }
    }
    if in_chain(s, root, x) && x != root {
        assert(reached.contains(x));
    }
}

/// Whether `id` occurs among `ids`.
fn contains_id(ids: &Vec<EventId>, id: EventId) -> (r: bool)
    ensures
        r == ids@.contains(id),
{
    let n = ids.len();
    for i in 0..n
        invariant
            n == ids@.len(),
            forall|k: int| 0 <= k < i ==> ids@[k] != id,
    {
        if ids[i] == id {
            return true;
        }
    }
    false
}

/// Distinct ids drawn from the root and the ids of `s` are at most one more
/// than the deliveries.
proof fn lemma_chain_bound<E, T>(s: Seq<EventEntry<E, T>>, root: EventId, ids: Seq<EventId>)
    requires
        ids.no_duplicates(),
        forall|x: EventId| #[trigger] ids.contains(x) ==> x == root || ids_of(s).contains(x),
    ensures
        ids.len() <= s.len() + 1,
{
    let u = ids_of(s).to_set().insert(root);
    ids_of(s).lemma_cardinality_of_set();
    ids.unique_seq_to_set();
    assert(ids.to_set().subset_of(u)) by {
        assert forall|x: EventId| ids.to_set().contains(x) implies u.contains(x) by {
            assert(ids.contains(x));
        }
    }
    vstd::set_lib::lemma_len_subset(ids.to_set(), u);
}

/// Delivery `j` carries event `c` as a child of event `p`.
pub open spec fn child_record<E, T>(s: Seq<EventEntry<E, T>>, j: int, c: EventId, p: EventId) -> bool {
    0 <= j < s.len() && s[j].spec_id() == c && s[j].spec_parent_id() == Some(p)
}

/// Event `ids[k]` was reached from `ids[h]` through delivery `j`: `ids[h]` is
/// the earliest of `ids` that a delivery names as its parent, and `j` the first
/// delivery that does.
pub open spec fn reached_via<E, T>(s: Seq<EventEntry<E, T>>, ids: Seq<EventId>, k: int, h: int, j: int) -> bool {
    &&& 0 <= h < k
    &&& child_record(s, j, ids[k], ids[h])
    &&& forall|h2: int, j2: int| 0 <= h2 < h ==> !#[trigger] child_record(s, j2, ids[k], ids[h2])
    &&& forall|j2: int| 0 <= j2 < j ==> !#[trigger] child_record(s, j2, ids[k], ids[h])
}

/// `(h1, j1)` comes before `(h2, j2)`: an earlier parent, or the same parent
/// and an earlier delivery.
pub open spec fn lex_before(h1: int, j1: int, h2: int, j2: int) -> bool {
    h1 < h2 || (h1 == h2 && j1 < j2)
}

/// `ids` lists events in breadth-first order: every event after the first was
/// reached from an earlier one, and the events come ordered by the position of
/// the event they were reached from, then by the delivery that reached them
/// (so the children of an event come in the order of their first delivery).
pub open spec fn breadth_first<E, T>(s: Seq<EventEntry<E, T>>, ids: Seq<EventId>) -> bool {
    exists|hs: Seq<int>, js: Seq<int>| #[trigger] bfs_witness(s, ids, hs, js)
}

/// Positions `hs` and deliveries `js` witness that `ids` is in breadth-first order.
pub open spec fn bfs_witness<E, T>(s: Seq<EventEntry<E, T>>, ids: Seq<EventId>, hs: Seq<int>, js: Seq<int>) -> bool {
    &&& hs.len() == ids.len()
    &&& js.len() == ids.len()
    &&& forall|k: int| 1 <= k < ids.len() ==> #[trigger] reached_via(s, ids, k, hs[k], js[k])
    &&& forall|k1: int, k2: int| 1 <= k1 < k2 < ids.len() ==> lex_before(#[trigger] hs[k1], js[k1], #[trigger] hs[k2], js[k2])
}

/// A chain lists its events breadth-first from the root: after the root, each
/// event was reached from the earliest listed event that a delivery names as
/// its parent, and events come ordered by that parent's position and then by
/// the first delivery that reached them, so siblings keep record order and
/// every event of one level comes before the children of the next.
pub proof fn law_chain_ids_breadth_first<E, T>(c: EventChain<E, T>)
    requires
        c.wf(),
    ensures
        c.spec_ids()[0] == c.spec_root(),
        breadth_first(c.spec_records(), c.spec_ids()),
        exists|hs: Seq<int>, js: Seq<int>|
            #![trigger bfs_witness(c.spec_records(), c.spec_ids(), hs, js)]
            bfs_witness(c.spec_records(), c.spec_ids(), hs, js) && forall|k1: int, k2: int|
                1 <= k1 < k2 < c.spec_ids().len() && hs[k1] == hs[k2] ==> js[k1] < js[k2],
{
    let (hs, js) = choose|hs: Seq<int>, js: Seq<int>| #[trigger] bfs_witness(c.spec_records(), c.spec_ids(), hs, js);
    assert forall|k1: int, k2: int| 1 <= k1 < k2 < c.spec_ids().len() && hs[k1] == hs[k2] implies js[k1] < js[k2] by {
        assert(lex_before(hs[k1], js[k1], hs[k2], js[k2]));
    }
}

/// Appending an event keeps how the earlier ones were reached.
proof fn lemma_reached_push<E, T>(s: Seq<EventEntry<E, T>>, ids: Seq<EventId>, c: EventId, k: int, h: int, j: int)
    requires
        reached_via(s, ids, k, h, j),
        k < ids.len(),
    ensures
        reached_via(s, ids.push(c), k, h, j),
{
    let n = ids.push(c);
    assert(n[k] == ids[k]);
    assert(n[h] == ids[h]);
    assert forall|h2: int, j2: int| 0 <= h2 < h implies !#[trigger] child_record(s, j2, n[k], n[h2]) by {
        assert(n[h2] == ids[h2]);
        assert(!child_record(s, j2, ids[k], ids[h2]));
    }
    assert forall|j2: int| 0 <= j2 < j implies !#[trigger] child_record(s, j2, n[k], n[h]) by {
        assert(!child_record(s, j2, ids[k], ids[h]));
    }
}

/// The ids of the root and of every event that descends from it, in the order
/// a breadth-first walk from the root reaches them.
fn chain_ids<E, T>(s: &Vec<EventEntry<E, T>>, root: EventId) -> (r: Vec<EventId>)
    ensures
        r@.no_duplicates(),
        r@.len() > 0,
        r@[0] == root,
        forall|x: EventId| #[trigger] r@.contains(x) <==> in_chain(s@, root, x),
        breadth_first(s@, r@),
{
    let mut ids: Vec<EventId> = Vec::new();
    ids.push(root);
    let mut head: usize = 0;
    let ghost mut hs: Seq<int> = seq![0int];
    let ghost mut js: Seq<int> = seq![0int];
    proof {
        assert forall|x: EventId| #[trigger] ids@.contains(x) implies in_chain(s@, root, x) by {
            assert(ids@[0] == x);
        }
    }
    while head < ids.len()
        invariant
            ids@.len() >= 1,
            ids@[0] == root,
            head <= ids@.len(),
            ids@.no_duplicates(),
            ids@.len() <= s@.len() + 1,
            forall|x: EventId| #[trigger] ids@.contains(x) ==> in_chain(s@, root, x),
            forall|x: EventId| #[trigger] ids@.contains(x) ==> x == root || ids_of(s@).contains(x),
            forall|k: int, j: int|
                0 <= k < head && 0 <= j < s@.len() && (#[trigger] s@[j]).spec_parent_id() == Some(#[trigger] ids@[k])
                    ==> ids@.contains(s@[j].spec_id()),
            bfs_witness(s@, ids@, hs, js),
            forall|k: int| 1 <= k < ids@.len() ==> #[trigger] hs[k] < head,
        decreases s@.len() + 1 - head,
    {
        let x = ids[head];
        let n = s.len();
        for j in 0..n
            invariant
                n == s@.len(),
                x == ids@[head as int],
                head < ids@.len(),
                ids@.len() >= 1,
                ids@[0] == root,
                ids@.no_duplicates(),
                ids@.len() <= s@.len() + 1,
                forall|y: EventId| #[trigger] ids@.contains(y) ==> in_chain(s@, root, y),
                forall|y: EventId| #[trigger] ids@.contains(y) ==> y == root || ids_of(s@).contains(y),
                forall|k: int, jj: int|
                    0 <= k < head && 0 <= jj < s@.len() && (#[trigger] s@[jj]).spec_parent_id() == Some(#[trigger] ids@[k])
                        ==> ids@.contains(s@[jj].spec_id()),
                forall|jj: int| 0 <= jj < j && (#[trigger] s@[jj]).spec_parent_id() == Some(x) ==> ids@.contains(s@[jj].spec_id()),
                bfs_witness(s@, ids@, hs, js),
                forall|k: int| 1 <= k < ids@.len() ==> #[trigger] hs[k] < head || (hs[k] == head && js[k] < j),
        {
            if s[j].meta().parent_id() == Some(x) {
                let c = s[j].id();
                if !contains_id(&ids, c) {
                    let ghost before = ids@;
                    proof {
                        assert(ids_of(s@)[j as int] == c);
                        assert forall|set: Set<EventId>| #[trigger] closed_under(s@, root, set) implies set.contains(c) by {
                            assert(before.contains(x));
                            assert(in_chain(s@, root, x));
                            assert(set.contains(x));
                            assert(s@[j as int].spec_parent_id() is Some);
                        }
                        let next = before.push(c);
                        assert(next.no_duplicates()) by {
                            assert forall|a: int, b: int| 0 <= a < next.len() && 0 <= b < next.len() && a != b implies next[a] != next[b] by {
                                if a == before.len() {
                                    assert(before.contains(next[b]));
                                } else if b == before.len() {
                                    assert(before.contains(next[a]));
                                }
                            }
                        }
                        assert forall|y: EventId| #[trigger] next.contains(y) implies y == root || ids_of(s@).contains(y) by {
                            if y != c {
                                let q = choose|q: int| 0 <= q < next.len() && next[q] == y;
                                assert(before[q] == y);
                                assert(before.contains(y));
                            }
                        }
                        lemma_chain_bound(s@, root, next);
                    }
                    ids.push(c);
                    proof {
                        let hs0 = hs;
                        let js0 = js;
                        assert(bfs_witness(s@, before, hs0, js0));
                        hs = hs0.push(head as int);
                        js = js0.push(j as int);
                        let k0 = before.len() as int;
                        assert(ids@ == before.push(c));
                        assert forall|k: int| 1 <= k < ids@.len() implies #[trigger] reached_via(s@, ids@, k, hs[k], js[k]) by {
                            if k < k0 {
                                assert(hs[k] == hs0[k] && js[k] == js0[k]);
                                assert(reached_via(s@, before, k, hs0[k], js0[k]));
                                lemma_reached_push(s@, before, c, k, hs0[k], js0[k]);
                            } else {
                                assert(ids@[k] == c);
                                assert(ids@[head as int] == x);
                                assert(child_record(s@, j as int, c, x));
                                assert forall|h2: int, j2: int| 0 <= h2 < head implies !#[trigger] child_record(s@, j2, ids@[k], ids@[h2]) by {
                                    assert(ids@[h2] == before[h2]);
                                    if child_record(s@, j2, c, before[h2]) {
                                        assert(s@[j2].spec_parent_id() == Some(before[h2]));
                                        assert(before.contains(s@[j2].spec_id()));
                                    }
                                }
                                assert forall|j2: int| 0 <= j2 < j implies !#[trigger] child_record(s@, j2, ids@[k], ids@[head as int]) by {
                                    if child_record(s@, j2, c, x) {
                                        assert(s@[j2].spec_parent_id() == Some(x));
                                        assert(before.contains(s@[j2].spec_id()));
                                    }
                                }
                            }
                        }
                        assert forall|k1: int, k2: int| 1 <= k1 < k2 < ids@.len() implies lex_before(#[trigger] hs[k1], js[k1], #[trigger] hs[k2], js[k2]) by {
                            assert(hs[k1] == hs0[k1] && js[k1] == js0[k1]);
                            if k2 < k0 {
                                assert(hs[k2] == hs0[k2] && js[k2] == js0[k2]);
                                assert(lex_before(hs0[k1], js0[k1], hs0[k2], js0[k2]));
                            } else {
                                assert(hs0[k1] < head || (hs0[k1] == head && js0[k1] < j));
                            }
                        }
                        assert(bfs_witness(s@, ids@, hs, js));
                        assert forall|k: int| 1 <= k < ids@.len() implies #[trigger] hs[k] < head || (hs[k] == head && js[k] < j + 1) by {
                            if k < k0 {
                                assert(hs[k] == hs0[k] && js[k] == js0[k]);
                                assert(hs0[k] < head || (hs0[k] == head && js0[k] < j));
                            }
                        }
                        assert forall|y: EventId| #[trigger] ids@.contains(y) implies in_chain(s@, root, y) by {
                            if y != c {
                                let q = choose|q: int| 0 <= q < ids@.len() && ids@[q] == y;
                                assert(before[q] == y);
                                assert(before.contains(y));
                            }
                        }
                        assert forall|k: int, jj: int|
                            0 <= k < head && 0 <= jj < s@.len() && (#[trigger] s@[jj]).spec_parent_id() == Some(#[trigger] ids@[k])
                                implies ids@.contains(s@[jj].spec_id()) by {
                            assert(ids@[k] == before[k]);
                            assert(before.contains(s@[jj].spec_id()));
                            let q = choose|q: int| 0 <= q < before.len() && before[q] == s@[jj].spec_id();
                            assert(ids@[q] == before[q]);
                        }
                        assert forall|jj: int| 0 <= jj < j + 1 && (#[trigger] s@[jj]).spec_parent_id() == Some(x) implies ids@.contains(s@[jj].spec_id()) by {
                            if jj < j {
                                assert(before.contains(s@[jj].spec_id()));
                                let q = choose|q: int| 0 <= q < before.len() && before[q] == s@[jj].spec_id();
                                assert(ids@[q] == before[q]);
                            } else {
                                assert(ids@[before.len() as int] == c);
                            }
                        }
                    }
                }
            }
        }
        proof {
            assert forall|k: int, jj: int|
                0 <= k < head + 1 && 0 <= jj < s@.len() && (#[trigger] s@[jj]).spec_parent_id() == Some(#[trigger] ids@[k])
                    implies ids@.contains(s@[jj].spec_id()) by {
                if k == head {
                    assert(ids@[k] == x);
                }
            }
            assert forall|k: int| 1 <= k < ids@.len() implies #[trigger] hs[k] < head + 1 by {
                assert(hs[k] < head || (hs[k] == head && js[k] < n));
            }
        }
        head = head + 1;
    }
    proof {
        let set = ids@.to_set();
        assert(closed_under(s@, root, set)) by {
            assert(ids@.contains(root)) by {
                assert(ids@[0] == root);
            }
            assert forall|j: int|
                0 <= j < s@.len() && (#[trigger] s@[j]).spec_parent_id() is Some && set.contains(s@[j].spec_parent_id()->0)
                    implies set.contains(s@[j].spec_id()) by {
                let p = s@[j].spec_parent_id()->0;
                assert(ids@.contains(p));
                let k = choose|k: int| 0 <= k < ids@.len() && ids@[k] == p;
                assert(s@[j].spec_parent_id() == Some(ids@[k]));
            }
        }
        assert forall|x: EventId| #[trigger] ids@.contains(x) <==> in_chain(s@, root, x) by {
            if in_chain(s@, root, x) {
                assert(set.contains(x));
            }
        }
        assert(bfs_witness(s@, ids@, hs, js));
    }
    ids
}

/// The events that descend from a root event, with the deliveries that
/// carried them.
pub struct EventChain<E, T> {
    entries: Vec<EventEntry<E, T>>,
    root: EventId,
    ids: Vec<EventId>,
}

impl<E, T> EventChain<E, T> {
    /// All recorded deliveries.
    pub closed spec fn spec_records(&self) -> Seq<EventEntry<E, T>> {
        self.entries@
    }

    /// The root event's id.
    pub closed spec fn spec_root(&self) -> EventId {
        self.root
    }

    /// The ids of the chain's events, in breadth-first order from the root.
    pub closed spec fn spec_ids(&self) -> Seq<EventId> {
        self.ids@
    }

    /// The chain's invariant: its ids are the root and its descendants, once
    /// each, the root first. Every chain keeps it.
    #[verifier::type_invariant]
    pub closed spec fn wf(&self) -> bool {
        &&& self.ids@.no_duplicates()
        &&& self.ids@.len() > 0
        &&& self.ids@[0] == self.root
        &&& forall|x: EventId| #[trigger] self.ids@.contains(x) <==> in_chain(self.entries@, self.root, x)
        &&& breadth_first(self.entries@, self.ids@)
    }

    /// The chain of `records` rooted at event `id`.
    pub fn new(records: EventRecords<E, T>, id: EventId) -> (r: EventChain<E, T>)
        ensures
            r.wf(),
            r.spec_records() == (*records)@,
            r.spec_root() == id,
    {
        let entries = copy_entries(&*records);
        let ids = chain_ids(&entries, id);
        EventChain { entries, root: id, ids }
    }

    /// The deliveries of the chain's events, in record order.
    pub fn chain_entries(&self) -> (r: Vec<EventEntry<E, T>>)
        ensures
            r@ == deliveries_of(self.spec_records(), self.spec_ids()),
    {
        let s = &self.entries;
        let ghost f = |e: EventEntry<E, T>| self.ids@.contains(e.spec_id());
        let mut r: Vec<EventEntry<E, T>> = Vec::new();
        let n = s.len();
        for i in 0..n
            invariant
                n == s@.len(),
                f == (|e: EventEntry<E, T>| self.ids@.contains(e.spec_id())),
                r@ == s@.take(i as int).filter(f),
        {
            proof {
                crate::seqs::lemma_filter_step(s@, f, i as int);
            }
            if contains_id(&self.ids, s[i].id()) {
                r.push(s[i].clone());
            }
        }
        proof {
            assert(s@.take(n as int) =~= s@);
        }
        r
    }

    /// A query over all recorded deliveries.
    fn records_query(&self) -> (r: EventQuery<E, T>)
        ensures
            r@ == self.spec_records(),
    {
        EventQuery::of(copy_entries(&self.entries))
    }

    /// The sender of event `id`, if it was delivered.
    pub fn sender_of(&self, id: EventId) -> (r: Option<ActorId>)
        ensures
            r matches Some(a) ==> sender_name(self.spec_records(), id) == Some(a@),
            r is None ==> sender_name(self.spec_records(), id) is None,
    {
        match self.records_query().with_id(id).first() {
            Some(e) => Some(e.sender().clone()),
            None => None,
        }
    }

    /// The sender of the root event, if it was delivered.
    pub fn root_sender(&self) -> (r: Option<ActorId>)
        ensures
            r matches Some(a) ==> sender_name(self.spec_records(), self.spec_root()) == Some(a@),
            r is None ==> sender_name(self.spec_records(), self.spec_root()) is None,
    {
        self.sender_of(self.root)
    }

    /// The ids of the children of event `id`, in order of first delivery.
    pub fn children_of(&self, id: EventId) -> (r: Vec<EventId>)
        ensures
            r@ == child_ids(self.spec_records(), id),
    {
        let kids = self.records_query().children_of(id).collect();
        let ghost src = kids@;
        let mut r: Vec<EventId> = Vec::new();
        let n = kids.len();
        for i in 0..n
            invariant
                n == src.len(),
                src == kids@,
                r@ == src.take(i as int).map_values(|e: EventEntry<E, T>| e.spec_id()),
        {
            r.push(kids[i].id());
            proof {
                assert(src.take(i as int + 1).map_values(|e: EventEntry<E, T>| e.spec_id())
                    =~= src.take(i as int).map_values(|e: EventEntry<E, T>| e.spec_id()).push(src[i as int].spec_id()));
            }
        }
        proof {
            assert(src.take(n as int) =~= src);
        }
        r
    }

    /// The actors event `id` was delivered to, each once, in order of first
    /// delivery.
    pub fn receivers_of(&self, id: EventId) -> (r: Vec<ActorId>)
        ensures
            crate::routing::names_of(r@) == receiver_names(self.spec_records(), id),
    {
        let r = self.records_query().with_id(id).receivers();
        proof {
            assert(crate::routing::names_of(r@) =~= receiver_names(self.spec_records(), id));
        }
        r
    }

    /// The ids of the chain's events, in breadth-first order from the root.
    pub fn ids(&self) -> (r: &Vec<EventId>)
        ensures
            r@ == self.spec_ids(),
    {
        &self.ids
    }

    /// The first delivery of event `id`, if it was delivered.
    pub fn first_delivery_of(&self, id: EventId) -> (r: Option<EventEntry<E, T>>)
        ensures
            r == first_delivery(self.spec_records(), id),
    {
        self.records_query().with_id(id).first()
    }

    /// The number of recorded deliveries.
    pub fn record_count(&self) -> (r: usize)
        ensures
            r == self.spec_records().len(),
    {
        self.entries.len()
    }

    /// The root event's id.
    pub fn root_id(&self) -> (r: EventId)
        ensures
            r == self.spec_root(),
    {
        self.root
    }
}

} // verus!
