//! Views of an event chain: the actors it passed through and the events along
//! each branch.
use vstd::prelude::*;

use crate::ids::{ActorId, EventId};
use crate::routing::names_of;
use crate::seqs::firsts;
use crate::testing::chain::{child_ids, deliveries_of, first_delivery, receiver_names, sender_name, EventChain};
use crate::testing::entry::EventEntry;
use crate::testing::matcher::{EntryPredicate, EventMatcher, IntoMatcher};
use crate::testing::query::{callable_on, distinct_receivers, id_key, EventQuery};

verus! {

/// `path` with actor `a` appended, unless `a` is already its last actor.
pub open spec fn extend(path: Seq<Seq<char>>, a: Seq<char>) -> Seq<Seq<char>> {
    if path.len() > 0 && path.last() == a {
        path
    } else {
        path.push(a)
    }
}

/// Extending a path by an actor ends the path with that actor and keeps the
/// path before it: the actor is added unless it is already the last one, even
/// when it occurs earlier on the path.
pub proof fn law_extend_ends_with_actor(path: Seq<Seq<char>>, a: Seq<char>)
    ensures
        extend(path, a).len() > 0,
        extend(path, a).last() == a,
        extend(path, a).len() <= path.len() + 1,
        extend(path, a).take(path.len() as int) == path,
        extend(path, a) == path <==> (path.len() > 0 && path.last() == a),
        !(path.len() > 0 && path.last() == a) ==> extend(path, a).len() == path.len() + 1,
{
    if !(path.len() > 0 && path.last() == a) {
        assert(path.push(a).take(path.len() as int) =~= path);
        assert(path.push(a).len() != path.len());
    } else {
        assert(path.take(path.len() as int) =~= path);
    }
}

/// The senders, among events `cs`, of those that were delivered.
pub open spec fn sender_names<E, T>(s: Seq<crate::testing::entry::EventEntry<E, T>>, cs: Seq<EventId>) -> Seq<Seq<char>>
    decreases cs.len(),
{
    if cs.len() == 0 {
        Seq::empty()
    } else {
        let prev = sender_names(s, cs.drop_last());
        match sender_name(s, cs.last()) {
            Some(a) => prev.push(a),
            None => prev,
        }
    }
}

/// The actor paths from event `id` down to the leaves of the chain, each
/// continuing `path`: an event without children ends a path at each of its
/// receivers; otherwise each delivered child continues the path through its
/// sender, and the receivers that sent no child end a path there. The walk
/// descends at most `fuel` levels.
pub open spec fn actor_paths<E, T>(
    s: Seq<crate::testing::entry::EventEntry<E, T>>,
    id: EventId,
    path: Seq<Seq<char>>,
    fuel: nat,
) -> Seq<Seq<Seq<char>>>
    decreases fuel, 0nat,
{
    let rs = receiver_names(s, id);
    let cs = child_ids(s, id);
    if cs.len() == 0 {
        rs.map_values(|r: Seq<char>| extend(path, r))
    } else if fuel == 0 {
        Seq::empty()
    } else {
        let senders = sender_names(s, cs);
        children_paths(s, cs, path, (fuel - 1) as nat) + rs.filter(|r: Seq<char>| !senders.contains(r)).map_values(
            |r: Seq<char>| extend(path, r),
        )
    }
}

/// The actor paths through the delivered children among `cs`, in order.
pub open spec fn children_paths<E, T>(
    s: Seq<crate::testing::entry::EventEntry<E, T>>,
    cs: Seq<EventId>,
    path: Seq<Seq<char>>,
    fuel: nat,
) -> Seq<Seq<Seq<char>>>
    decreases fuel, cs.len() + 1,
{
    if cs.len() == 0 {
        Seq::empty()
    } else {
        let prev = children_paths(s, cs.drop_last(), path, fuel);
        match sender_name(s, cs.last()) {
            Some(a) => prev + actor_paths(s, cs.last(), extend(path, a), fuel),
            None => prev,
        }
    }
}

/// The actor paths of a chain: from the root's sender down to the leaves,
/// descending at most as many levels as there are deliveries; none when the
/// root event was not delivered.
pub open spec fn chain_actor_paths<E, T>(c: EventChain<E, T>) -> Seq<Seq<Seq<char>>> {
    match sender_name(c.spec_records(), c.spec_root()) {
        Some(a) => actor_paths(c.spec_records(), c.spec_root(), seq![a], c.spec_records().len()),
        None => Seq::empty(),
    }
}

/// `sub` occurs in `s` in order, gaps allowed.
pub open spec fn is_subsequence<A>(sub: Seq<A>, s: Seq<A>) -> bool
    decreases s.len(),
{
    if sub.len() == 0 {
        true
    } else if s.len() == 0 {
        false
    } else if s[0] == sub[0] {
        is_subsequence(sub.drop_first(), s.drop_first())
    } else {
        is_subsequence(sub, s.drop_first())
    }
}

/// `seg` occurs in `s` as a contiguous block.
pub open spec fn has_segment<A>(seg: Seq<A>, s: Seq<A>) -> bool {
    exists|i: int| 0 <= i && i + seg.len() <= s.len() && #[trigger] s.subrange(i, i + seg.len()) == seg
}

/// The names of a list of actor references.
pub open spec fn ref_names(actors: Seq<&ActorId>) -> Seq<Seq<char>> {
    actors.map_values(|a: &ActorId| a@)
}

/// The actors of a chain: its receivers, each once in order of first delivery,
/// then the root's sender if it is not among them.
pub open spec fn chain_actors<E, T>(c: EventChain<E, T>) -> Seq<Seq<char>> {
    let base = distinct_receivers(deliveries_of(c.spec_records(), c.spec_ids())).map_values(|a: ActorId| a@);
    match sender_name(c.spec_records(), c.spec_root()) {
        Some(a) => if base.contains(a) {
            base
        } else {
            base.push(a)
        },
        None => base,
    }
}

/// The event paths from event `id` down to the leaves, each continuing `path`
/// with the first delivery of each event along it; the walk descends at most
/// `fuel` levels.
pub open spec fn event_paths<E, T>(
    s: Seq<EventEntry<E, T>>,
    id: EventId,
    path: Seq<EventEntry<E, T>>,
    fuel: nat,
) -> Seq<Seq<EventEntry<E, T>>>
    decreases fuel, 0nat,
{
    match first_delivery(s, id) {
        None => Seq::empty(),
        Some(e) => {
            let p = path.push(e);
            let cs = child_ids(s, id);
            if cs.len() == 0 {
                seq![p]
            } else if fuel == 0 {
                Seq::empty()
            } else {
                event_children_paths(s, cs, p, (fuel - 1) as nat)
            }
        },
    }
}

/// The event paths through the children `cs`, in order.
pub open spec fn event_children_paths<E, T>(
    s: Seq<EventEntry<E, T>>,
    cs: Seq<EventId>,
    path: Seq<EventEntry<E, T>>,
    fuel: nat,
) -> Seq<Seq<EventEntry<E, T>>>
    decreases fuel, cs.len() + 1,
{
    if cs.len() == 0 {
        Seq::empty()
    } else {
        event_children_paths(s, cs.drop_last(), path, fuel) + event_paths(s, cs.last(), path, fuel)
    }
}

/// The event paths of a chain, from the root down to the leaves.
pub open spec fn chain_event_paths<E, T>(c: EventChain<E, T>) -> Seq<Seq<EventEntry<E, T>>> {
    event_paths(c.spec_records(), c.spec_root(), Seq::empty(), c.spec_records().len())
}

/// The first delivery of each of the events `ids` that was delivered, in order.
pub open spec fn first_deliveries<E, T>(s: Seq<EventEntry<E, T>>, ids: Seq<EventId>) -> Seq<EventEntry<E, T>>
    decreases ids.len(),
{
    if ids.len() == 0 {
        Seq::empty()
    } else {
        let prev = first_deliveries(s, ids.drop_last());
        match first_delivery(s, ids.last()) {
            Some(e) => prev.push(e),
            None => prev,
        }
    }
}

/// Every matcher may be applied to any delivery.
pub open spec fn applicable<E, T, P: EntryPredicate<E, T>>(ms: Seq<EventMatcher<E, T, P>>) -> bool {
    forall|k: int, e: EventEntry<E, T>| 0 <= k < ms.len() ==> #[trigger] (#[trigger] ms[k]).predicate().callable(e)
}

/// Every matcher gives exactly one answer for every delivery.
pub open spec fn decided<E, T, P: EntryPredicate<E, T>>(ms: Seq<EventMatcher<E, T, P>>) -> bool {
    forall|k: int, e: EventEntry<E, T>|
        0 <= k < ms.len() ==> #[trigger] ms[k].predicate().answers(e, true) != ms[k].predicate().answers(e, false)
}

/// Each matcher accepts the delivery at the same position.
pub open spec fn all_accept<E, T, P: EntryPredicate<E, T>>(ms: Seq<EventMatcher<E, T, P>>, s: Seq<EventEntry<E, T>>) -> bool {
    ms.len() == s.len() && forall|k: int| 0 <= k < ms.len() ==> (#[trigger] ms[k]).predicate().answers(s[k], true)
}

/// The matchers accept deliveries of `s` in order, gaps allowed.
pub open spec fn accepts_in_order<E, T, P: EntryPredicate<E, T>>(ms: Seq<EventMatcher<E, T, P>>, s: Seq<EventEntry<E, T>>) -> bool
    decreases s.len(),
{
    if ms.len() == 0 {
        true
    } else if s.len() == 0 {
        false
    } else if ms[0].predicate().answers(s[0], true) {
        accepts_in_order(ms.drop_first(), s.drop_first())
    } else {
        accepts_in_order(ms, s.drop_first())
    }
}

/// The identity on paths, as the key by which repeated paths are recognised.
pub open spec fn path_key() -> spec_fn(Seq<Seq<char>>) -> Seq<Seq<char>> {
    |p: Seq<Seq<char>>| p
}

/// The paths of `ps`, each once, in order of first occurrence.
pub open spec fn distinct_paths(ps: Seq<Seq<Seq<char>>>) -> Seq<Seq<Seq<char>>> {
    firsts(ps, path_key())
}

/// The names along each path.
pub open spec fn path_names(paths: Seq<Vec<ActorId>>) -> Seq<Seq<Seq<char>>> {
    paths.map_values(|p: Vec<ActorId>| names_of(p@))
}

/// The actors an event chain passed through.
pub struct ActorTrace<'a, E, T> {
    chain: &'a EventChain<E, T>,
}

impl<'a, E, T> ActorTrace<'a, E, T> {
    /// The traced chain.
    pub closed spec fn spec_chain(&self) -> &'a EventChain<E, T> {
        self.chain
    }

    /// A view of `chain`.
    pub fn new(chain: &'a EventChain<E, T>) -> (r: ActorTrace<'a, E, T>)
        ensures
            r.spec_chain() == chain,
    {
        ActorTrace { chain }
    }

    /// Extends `path` by actor `a` unless it already ends with it.
    fn extend_path(path: &Vec<ActorId>, a: &ActorId) -> (r: Vec<ActorId>)
        ensures
            names_of(r@) == extend(names_of(path@), a@),
    {
        let mut r = crate::routing::copy_ids(path);
        let n = r.len();
        if n > 0 && r[n - 1] == *a {
            proof {
                assert(names_of(path@).last() == path@[n - 1]@);
            }
            r
        } else {
            let ghost before = r@;
            r.push(a.clone());
            proof {
                assert(names_of(r@) =~= names_of(before).push(a@));
                if n > 0 {
                    assert(names_of(path@).last() == path@[n - 1]@);
                }
            }
            r
        }
    }

    /// Appends the paths from event `event_id` down to the leaves, each
    /// continuing `current_path`, descending at most `fuel` levels.
    fn build_paths_dfs(&self, event_id: EventId, current_path: Vec<ActorId>, paths: &mut Vec<Vec<ActorId>>, fuel: usize)
        ensures
            path_names(final(paths)@) == path_names(old(paths)@) + actor_paths(
                self.chain.spec_records(),
                event_id,
                names_of(current_path@),
                fuel as nat,
            ),
        decreases fuel, 0nat,
    {
        let ghost s = self.chain.spec_records();
        let ghost cur = names_of(current_path@);
        let ghost start = path_names(paths@);
        let receivers = self.chain.receivers_of(event_id);
        let children = self.chain.children_of(event_id);
        let ghost rs = receiver_names(s, event_id);
        let ghost cs = child_ids(s, event_id);
        if children.len() == 0 {
            let n = receivers.len();
            for i in 0..n
                invariant
                    n == receivers@.len(),
                    names_of(receivers@) == rs,
                    cur == names_of(current_path@),
                    path_names(paths@) == start + rs.take(i as int).map_values(|r: Seq<char>| extend(cur, r)),
            {
                let path = Self::extend_path(&current_path, &receivers[i]);
                let ghost before = paths@;
                let ghost pn = names_of(path@);
                proof {
                    assert(receivers@[i as int]@ == rs[i as int]);
                    assert(pn == extend(names_of(current_path@), receivers@[i as int]@));
                    assert(cur == names_of(current_path@));
                }
                paths.push(path);
                proof {
                    assert(path_names(paths@) =~= path_names(before).push(pn));
                    assert(path_names(paths@) =~= path_names(before).push(extend(cur, rs[i as int])));
                    assert(rs.take(i as int + 1).map_values(|r: Seq<char>| extend(cur, r))
                        =~= rs.take(i as int).map_values(|r: Seq<char>| extend(cur, r)).push(extend(cur, rs[i as int])));
                }
            }
            proof {
                assert(rs.take(n as int) =~= rs);
            }
        } else if fuel == 0 {
            proof {
                assert(path_names(paths@) =~= start + Seq::<Seq<Seq<char>>>::empty());
            }
        } else {
            let m = children.len();
            let mut senders: Vec<ActorId> = Vec::new();
            for k in 0..m
                invariant
                    m == children@.len(),
                    children@ == cs,
                    fuel > 0,
                    cur == names_of(current_path@),
                    s == self.chain.spec_records(),
                    names_of(senders@) == sender_names(s, cs.take(k as int)),
                    path_names(paths@) == start + children_paths(s, cs.take(k as int), cur, (fuel - 1) as nat),
                decreases m - k,
            {
                let child = children[k];
                proof {
                    assert(cs.take(k as int + 1).drop_last() =~= cs.take(k as int));
                    assert(cs.take(k as int + 1).last() == child);
                }
                let ghost next = cs.take(k as int + 1);
                match self.chain.sender_of(child) {
                    Some(child_sender) => {
                        let path = Self::extend_path(&current_path, &child_sender);
                        let ghost mid = path_names(paths@);
                        let ghost pn = names_of(path@);
                        self.build_paths_dfs(child, path, paths, fuel - 1);
                        let ghost before = senders@;
                        senders.push(child_sender);
                        proof {
                            assert(sender_name(s, child) == Some(child_sender@));
                            assert(sender_names(s, next) == sender_names(s, cs.take(k as int)).push(child_sender@));
                            assert(names_of(senders@) =~= names_of(before).push(child_sender@));
                            assert(children_paths(s, next, cur, (fuel - 1) as nat) == children_paths(s, cs.take(k as int), cur, (fuel - 1) as nat)
                                + actor_paths(s, child, extend(cur, child_sender@), (fuel - 1) as nat));
                            assert(pn == extend(cur, child_sender@));
                            assert(path_names(paths@) =~= start + children_paths(s, next, cur, (fuel - 1) as nat));
                        }
                    },
                    None => {
                        proof {
                            assert(sender_name(s, child) is None);
                            assert(sender_names(s, next) == sender_names(s, cs.take(k as int)));
                            assert(children_paths(s, next, cur, (fuel - 1) as nat) == children_paths(s, cs.take(k as int), cur, (fuel - 1) as nat));
                        }
                    },
                }
            }
            proof {
                assert(cs.take(m as int) =~= cs);
            }
            let ghost ss = sender_names(s, cs);
            let ghost leaves = rs.filter(|r: Seq<char>| !ss.contains(r));
            let ghost mid = path_names(paths@);
            let n = receivers.len();
            let mut leaf_count: usize = 0;
            for i in 0..n
                invariant
                    n == receivers@.len(),
                    names_of(receivers@) == rs,
                    names_of(senders@) == ss,
                    cur == names_of(current_path@),
                    path_names(paths@) == mid + rs.take(i as int).filter(|r: Seq<char>| !ss.contains(r)).map_values(
                        |r: Seq<char>| extend(cur, r),
                    ),
            {
                proof {
                    crate::seqs::lemma_filter_step(rs, |r: Seq<char>| !ss.contains(r), i as int);
                }
                if !crate::routing::contains_name(&senders, &receivers[i]) {
                    let path = Self::extend_path(&current_path, &receivers[i]);
                    let ghost before = paths@;
                    let ghost pn = names_of(path@);
                    proof {
                        assert(receivers@[i as int]@ == rs[i as int]);
                    }
                    paths.push(path);
                    proof {
                        let g = rs.take(i as int).filter(|r: Seq<char>| !ss.contains(r));
                        assert(path_names(paths@) =~= path_names(before).push(pn));
                        assert(path_names(paths@) =~= path_names(before).push(extend(cur, rs[i as int])));
                        assert(g.push(rs[i as int]).map_values(|r: Seq<char>| extend(cur, r))
                            =~= g.map_values(|r: Seq<char>| extend(cur, r)).push(extend(cur, rs[i as int])));
                    }
                }
            }
            proof {
                assert(rs.take(n as int) =~= rs);
            }
        }
    }

    /// Every path from the root's sender down to the leaves of the chain, each
    /// once, in the order the walk first reaches it; none when the root event
    /// was not delivered.
    pub fn paths(&self) -> (r: Vec<Vec<ActorId>>)
        ensures
            path_names(r@) == distinct_paths(chain_actor_paths(*self.spec_chain())),
            path_names(r@).no_duplicates(),
            forall|p: Seq<Seq<char>>| #[trigger] path_names(r@).contains(p) <==> chain_actor_paths(*self.spec_chain()).contains(p),
    {
        let all = self.all_paths();
        let ghost ps = path_names(all@);
        let mut out: Vec<Vec<ActorId>> = Vec::new();
        let n = all.len();
        proof {
            assert(ps.take(0) =~= Seq::<Seq<Seq<char>>>::empty());
            assert(path_names(out@) =~= Seq::empty());
        }
        for i in 0..n
            invariant
                n == all@.len(),
                ps == path_names(all@),
                path_names(out@) == distinct_paths(ps.take(i as int)),
        {
            proof {
                crate::seqs::lemma_firsts_step(ps, path_key(), i as int);
                crate::seqs::lemma_firsts_keys(ps.take(i as int), path_key());
                assert(ps[i as int] == names_of(all@[i as int]@));
            }
            let fresh = !contains_path(&out, &all[i]);
            proof {
                let x = ps[i as int];
                let t = ps.take(i as int);
                assert(crate::seqs::has_key(t, path_key(), x) == (exists|k: int| 0 <= k < i && path_key()(ps[k]) == path_key()(ps[i as int]))) by {
                    if exists|k: int| 0 <= k < i && path_key()(ps[k]) == path_key()(ps[i as int]) {
                        let k = choose|k: int| 0 <= k < i && path_key()(ps[k]) == path_key()(ps[i as int]);
                        assert(path_key()(t[k]) == x);
                    }
                }
                let f = distinct_paths(t);
                assert(f.contains(x) == crate::seqs::has_key(f, path_key(), x)) by {
                    if f.contains(x) {
                        let j = choose|j: int| 0 <= j < f.len() && f[j] == x;
                        assert(path_key()(f[j]) == x);
                    }
                }
            }
            if fresh {
                let ghost before = out@;
                let p = copy_actor_path(&all[i]);
                out.push(p);
                proof {
                    assert(path_names(out@) =~= path_names(before).push(ps[i as int]));
                }
            }
        }
        proof {
            assert(ps.take(n as int) =~= ps);
            crate::seqs::lemma_firsts_keys(ps, path_key());
            let f = distinct_paths(ps);
            assert forall|a: int, b: int| 0 <= a < f.len() && 0 <= b < f.len() && a != b implies f[a] != f[b] by {
                if a < b {
                    assert(path_key()(f[a]) != path_key()(f[b]));
                } else {
                    assert(path_key()(f[b]) != path_key()(f[a]));
                }
            }
            assert forall|p: Seq<Seq<char>>| #[trigger] f.contains(p) <==> ps.contains(p) by {
                assert(crate::seqs::has_key(f, path_key(), p) == crate::seqs::has_key(ps, path_key(), p));
                if f.contains(p) {
                    let j = choose|j: int| 0 <= j < f.len() && f[j] == p;
                    assert(path_key()(f[j]) == p);
                }
                if ps.contains(p) {
                    let j = choose|j: int| 0 <= j < ps.len() && ps[j] == p;
                    assert(path_key()(ps[j]) == p);
                }
                if crate::seqs::has_key(f, path_key(), p) {
                    let j = choose|j: int| 0 <= j < f.len() && path_key()(f[j]) == p;
                    assert(f[j] == p);
                }
                if crate::seqs::has_key(ps, path_key(), p) {
                    let j = choose|j: int| 0 <= j < ps.len() && path_key()(ps[j]) == p;
                    assert(ps[j] == p);
                }
            }
        }
        out
    }

    /// Every path the walk reaches, repeats included.
    fn all_paths(&self) -> (r: Vec<Vec<ActorId>>)
        ensures
            path_names(r@) == chain_actor_paths(*self.spec_chain()),
    {
        let mut paths: Vec<Vec<ActorId>> = Vec::new();
        proof {
            assert(path_names(paths@) =~= Seq::empty());
        }
        match self.chain.root_sender() {
            Some(sender) => {
                let mut start: Vec<ActorId> = Vec::new();
                start.push(sender);
                proof {
                    assert(names_of(start@) =~= seq![sender@]);
                }
                self.build_paths_dfs(self.chain.root_id(), start, &mut paths, self.chain.record_count());
                proof {
                    assert(path_names(paths@) =~= Seq::<Seq<Seq<char>>>::empty() + actor_paths(
                        self.chain.spec_records(),
                        self.chain.spec_root(),
                        seq![sender@],
                        self.chain.spec_records().len(),
                    ));
                }
                paths
            },
            None => paths,
        }
    }

    /// Every actor the chain involved: the receivers of its events and the
    /// root's sender, each once.
    pub fn all(&self) -> (r: Vec<ActorId>)
        ensures
            names_of(r@) == chain_actors(*self.spec_chain()),
    {
        proof {
            use_type_invariant(self.chain);
        }
        let mut r = EventQuery::of(self.chain.chain_entries()).receivers();
        proof {
            assert(names_of(r@) =~= distinct_receivers(deliveries_of(self.chain.spec_records(), self.chain.spec_ids())).map_values(
                |a: ActorId| a@,
            ));
        }
        match self.chain.root_sender() {
            Some(a) => {
                if !crate::routing::contains_name(&r, &a) {
                    let ghost before = r@;
                    r.push(a);
                    proof {
                        assert(names_of(r@) =~= names_of(before).push(a@));
                    }
                }
            },
            None => {},
        }
        r
    }

    /// Whether the chain involved every one of `actors`.
    pub fn visited(&self, actors: &[&ActorId]) -> (r: bool)
        ensures
            r == forall|k: int| 0 <= k < actors@.len() ==> chain_actors(*self.spec_chain()).contains((#[trigger] actors@[k])@),
    {
        let all = self.all();
        let n = actors.len();
        for k in 0..n
            invariant
                n == actors@.len(),
                names_of(all@) == chain_actors(*self.spec_chain()),
                forall|q: int| 0 <= q < k ==> chain_actors(*self.spec_chain()).contains((#[trigger] actors@[q])@),
        {
            if !crate::routing::contains_name(&all, actors[k]) {
                return false;
            }
        }
        true
    }

    /// Whether some path is exactly `actors`, from the root's sender to a leaf.
    /// An empty list always matches.
    pub fn exact(&self, actors: &[&ActorId]) -> (r: bool)
        ensures
            r == (actors@.len() == 0 || chain_actor_paths(*self.spec_chain()).contains(ref_names(actors@))),
    {
        if actors.len() == 0 {
            return true;
        }
        let paths = self.all_paths();
        let ghost ps = path_names(paths@);
        let n = paths.len();
        for i in 0..n
            invariant
                n == paths@.len(),
                ps == path_names(paths@),
                ps == chain_actor_paths(*self.spec_chain()),
                forall|q: int| 0 <= q < i ==> ps[q] != ref_names(actors@),
        {
            if same_actors(&paths[i], actors) {
                proof {
                    assert(ps[i as int] == ref_names(actors@));
                }
                return true;
            }
        }
        false
    }

    /// Whether some path holds `actors` as a contiguous block. An empty list
    /// always matches.
    pub fn segment(&self, actors: &[&ActorId]) -> (r: bool)
        ensures
            r == (actors@.len() == 0 || exists|q: int|
                0 <= q < chain_actor_paths(*self.spec_chain()).len() && has_segment(
                    ref_names(actors@),
                    #[trigger] chain_actor_paths(*self.spec_chain())[q],
                )),
    {
        if actors.len() == 0 {
            return true;
        }
        let paths = self.all_paths();
        let ghost ps = path_names(paths@);
        let n = paths.len();
        for i in 0..n
            invariant
                n == paths@.len(),
                ps == path_names(paths@),
                ps == chain_actor_paths(*self.spec_chain()),
                forall|q: int| 0 <= q < i ==> !has_segment(ref_names(actors@), #[trigger] ps[q]),
        {
            if Self::contains_contiguous(&paths[i], actors) {
                proof {
                    assert(ps[i as int] == names_of(paths@[i as int]@));
                    assert(has_segment(ref_names(actors@), ps[i as int]));
                }
                return true;
            }
        }
        false
    }

    /// Whether some path visits `actors` in order, gaps allowed. An empty list
    /// always matches.
    pub fn passes_through(&self, actors: &[&ActorId]) -> (r: bool)
        ensures
            r == (actors@.len() == 0 || exists|q: int|
                0 <= q < chain_actor_paths(*self.spec_chain()).len() && is_subsequence(
                    ref_names(actors@),
                    #[trigger] chain_actor_paths(*self.spec_chain())[q],
                )),
    {
        if actors.len() == 0 {
            return true;
        }
        let paths = self.all_paths();
        let ghost ps = path_names(paths@);
        let n = paths.len();
        for i in 0..n
            invariant
                n == paths@.len(),
                ps == path_names(paths@),
                ps == chain_actor_paths(*self.spec_chain()),
                forall|q: int| 0 <= q < i ==> !is_subsequence(ref_names(actors@), #[trigger] ps[q]),
        {
            if Self::contains_subsequence(&paths[i], actors) {
                proof {
                    assert(ps[i as int] == names_of(paths@[i as int]@));
                    assert(is_subsequence(ref_names(actors@), ps[i as int]));
                }
                return true;
            }
        }
        false
    }

    /// Whether `path` visits `subsequence` in order, gaps allowed.
    fn contains_subsequence(path: &Vec<ActorId>, subsequence: &[&ActorId]) -> (r: bool)
        ensures
            r == is_subsequence(ref_names(subsequence@), names_of(path@)),
    {
        let ghost sub = ref_names(subsequence@);
        let ghost p = names_of(path@);
        let mut current: usize = 0;
        let n = path.len();
        proof {
            assert(sub.skip(0) =~= sub);
            assert(p.skip(0) =~= p);
        }
        for i in 0..n
            invariant
                n == p.len(),
                sub == ref_names(subsequence@),
                p == names_of(path@),
                current <= sub.len(),
                is_subsequence(sub, p) == is_subsequence(sub.skip(current as int), p.skip(i as int)),
        {
            proof {
                assert(p.skip(i as int).drop_first() =~= p.skip(i as int + 1));
                assert(p.skip(i as int)[0] == p[i as int]);
            }
            if current < subsequence.len() {
                proof {
                    assert(sub.skip(current as int)[0] == sub[current as int]);
                    assert(sub.skip(current as int).drop_first() =~= sub.skip(current as int + 1));
                }
                if path[i] == *subsequence[current] {
                    current = current + 1;
                }
            } else {
                proof {
                    assert(sub.skip(current as int).len() == 0);
                }
            }
        }
        proof {
            assert(p.skip(n as int).len() == 0);
            if current < sub.len() {
                assert(sub.skip(current as int).len() > 0);
            }
        }
        current == subsequence.len()
    }

    /// Whether `path` holds `subsequence` as a contiguous block.
    fn contains_contiguous(path: &Vec<ActorId>, subsequence: &[&ActorId]) -> (r: bool)
        ensures
            r == has_segment(ref_names(subsequence@), names_of(path@)),
    {
        let ghost sub = ref_names(subsequence@);
        let ghost p = names_of(path@);
        let m = subsequence.len();
        let n = path.len();
        if m > n {
            proof {
                assert(!has_segment(sub, p));
            }
            return false;
        }
        let mut start: usize = 0;
        while start <= n - m
            invariant
                m == sub.len(),
                n == p.len(),
                m <= n,
                sub == ref_names(subsequence@),
                p == names_of(path@),
                start <= n - m + 1,
                forall|q: int| 0 <= q < start ==> #[trigger] p.subrange(q, q + m) != sub,
            decreases n - start,
        {
            let mut k: usize = 0;
            let mut same = true;
            while k < m
                invariant
                    k <= m,
                    start + m <= n,
                    m == sub.len(),
                    n == p.len(),
                    sub == ref_names(subsequence@),
                    p == names_of(path@),
                    same == forall|j: int| 0 <= j < k ==> p[start + j] == sub[j],
                decreases m - k,
            {
                proof {
                    assert(p[start + k] == path@[start + k]@);
                    assert(sub[k as int] == subsequence@[k as int]@);
                }
                if !(path[start + k] == *subsequence[k]) {
                    same = false;
                }
                k = k + 1;
            }
            if same {
                proof {
                    assert(p.subrange(start as int, start + m) =~= sub);
                }
                return true;
            }
            proof {
                let j = choose|j: int| 0 <= j < m && p[start + j] != sub[j];
                assert(p.subrange(start as int, start + m)[j] == p[start + j]);
            }
            start = start + 1;
        }
        false
    }

    /// The number of distinct paths through the chain.
    pub fn path_count(&self) -> (r: usize)
        ensures
            r == distinct_paths(chain_actor_paths(*self.spec_chain())).len(),
    {
        self.paths().len()
    }
}

/// The events of a chain, and the paths of events along its branches.
pub struct EventTrace<'a, E, T> {
    chain: &'a EventChain<E, T>,
}

impl<'a, E, T> EventTrace<'a, E, T> {
    /// The traced chain.
    pub closed spec fn spec_chain(&self) -> &'a EventChain<E, T> {
        self.chain
    }

    /// A view of `chain`.
    pub fn new(chain: &'a EventChain<E, T>) -> (r: EventTrace<'a, E, T>)
        ensures
            r.spec_chain() == chain,
    {
        EventTrace { chain }
    }

    /// The first delivery of each of the chain's events, in record order.
    pub fn all(&self) -> (r: Vec<EventEntry<E, T>>)
        ensures
            r@ == firsts(deliveries_of(self.spec_chain().spec_records(), self.spec_chain().spec_ids()), id_key()),
    {
        EventQuery::of(self.chain.chain_entries()).collect()
    }

    /// The first delivery of each of the chain's events, in breadth-first order
    /// from the root.
    pub fn ordered(&self) -> (r: Vec<EventEntry<E, T>>)
        ensures
            r@ == first_deliveries(self.spec_chain().spec_records(), self.spec_chain().spec_ids()),
    {
        let ids = self.chain.ids();
        let ghost s = self.chain.spec_records();
        let mut r: Vec<EventEntry<E, T>> = Vec::new();
        let n = ids.len();
        for i in 0..n
            invariant
                n == ids@.len(),
                s == self.chain.spec_records(),
                r@ == first_deliveries(s, ids@.take(i as int)),
        {
            proof {
                assert(ids@.take(i as int + 1).drop_last() =~= ids@.take(i as int));
                assert(ids@.take(i as int + 1).last() == ids@[i as int]);
            }
            match self.chain.first_delivery_of(ids[i]) {
                Some(e) => {
                    r.push(e);
                },
                None => {},
            }
        }
        proof {
            assert(ids@.take(n as int) =~= ids@);
        }
        r
    }

    /// Whether some delivery of the chain's events matches.
    pub fn contains<M: IntoMatcher<E, T>>(&self, matcher: M) -> (r: bool)
        requires
            callable_on(matcher.spec_pred(), deliveries_of(self.spec_chain().spec_records(), self.spec_chain().spec_ids())),
        ensures
            r ==> exists|i: int|
                0 <= i < deliveries_of(self.spec_chain().spec_records(), self.spec_chain().spec_ids()).len()
                    && matcher.spec_pred().answers(
                    deliveries_of(self.spec_chain().spec_records(), self.spec_chain().spec_ids())[i],
                    true,
                ),
            !r ==> forall|i: int|
                0 <= i < deliveries_of(self.spec_chain().spec_records(), self.spec_chain().spec_ids()).len()
                    ==> matcher.spec_pred().answers(
                    deliveries_of(self.spec_chain().spec_records(), self.spec_chain().spec_ids())[i],
                    false,
                ),
    {
        EventQuery::of(self.chain.chain_entries()).has_event(matcher)
    }

    /// Appends the event paths from event `id` down to the leaves, each
    /// continuing `path`, descending at most `fuel` levels.
    fn build_event_paths(&self, id: EventId, path: Vec<EventEntry<E, T>>, paths: &mut Vec<Vec<EventEntry<E, T>>>, fuel: usize)
        ensures
            vecs_view(final(paths)@) == vecs_view(old(paths)@) + event_paths(self.chain.spec_records(), id, path@, fuel as nat),
        decreases fuel, 0nat,
    {
        let ghost s = self.chain.spec_records();
        let ghost start = vecs_view(paths@);
        match self.chain.first_delivery_of(id) {
            None => {
                proof {
                    assert(vecs_view(paths@) =~= start + Seq::<Seq<EventEntry<E, T>>>::empty());
                }
            },
            Some(e) => {
                let mut p = path;
                p.push(e);
                let children = self.chain.children_of(id);
                let ghost cs = children@;
                if children.len() == 0 {
                    let ghost pv = p@;
                    paths.push(p);
                    proof {
                        assert(vecs_view(paths@) =~= start + seq![pv]);
                    }
                } else if fuel == 0 {
                    proof {
                        assert(vecs_view(paths@) =~= start + Seq::<Seq<EventEntry<E, T>>>::empty());
                    }
                } else {
                    let m = children.len();
                    for k in 0..m
                        invariant
                            m == children@.len(),
                            cs == children@,
                            fuel > 0,
                            s == self.chain.spec_records(),
                            vecs_view(paths@) == start + event_children_paths(s, cs.take(k as int), p@, (fuel - 1) as nat),
                    {
                        proof {
                            assert(cs.take(k as int + 1).drop_last() =~= cs.take(k as int));
                            assert(cs.take(k as int + 1).last() == cs[k as int]);
                        }
                        let branch = copy_path(&p);
                        self.build_event_paths(children[k], branch, paths, fuel - 1);
                        proof {
                            assert(vecs_view(paths@) =~= start + event_children_paths(s, cs.take(k as int + 1), p@, (fuel - 1) as nat));
                        }
                    }
                    proof {
                        assert(cs.take(m as int) =~= cs);
                    }
                }
            },
        }
    }

    /// Every event path of the chain, from the root down to a leaf.
    pub fn event_paths(&self) -> (r: Vec<Vec<EventEntry<E, T>>>)
        ensures
            vecs_view(r@) == chain_event_paths(*self.spec_chain()),
    {
        let mut paths: Vec<Vec<EventEntry<E, T>>> = Vec::new();
        proof {
            assert(vecs_view(paths@) =~= Seq::empty());
        }
        self.build_event_paths(self.chain.root_id(), Vec::new(), &mut paths, self.chain.record_count());
        proof {
            assert(vecs_view(paths@) =~= Seq::<Seq<EventEntry<E, T>>>::empty() + chain_event_paths(*self.spec_chain()));
        }
        paths
    }

    /// The number of event paths of the chain.
    pub fn path_count(&self) -> (r: usize)
        ensures
            r == chain_event_paths(*self.spec_chain()).len(),
    {
        self.event_paths().len()
    }

    /// Whether some event path is matched position by position by
    /// `matchers`. An empty list always matches.
    pub fn exact<P: EntryPredicate<E, T>>(&self, matchers: &Vec<EventMatcher<E, T, P>>) -> (r: bool)
        requires
            applicable(matchers@),
        ensures
            decided(matchers@) ==> r == (matchers@.len() == 0 || exists|q: int|
                0 <= q < chain_event_paths(*self.spec_chain()).len() && all_accept(
                    matchers@,
                    #[trigger] chain_event_paths(*self.spec_chain())[q],
                )),
    {
        if matchers.len() == 0 {
            return true;
        }
        let paths = self.event_paths();
        let ghost ps = vecs_view(paths@);
        let n = paths.len();
        for i in 0..n
            invariant
                n == paths@.len(),
                ps == vecs_view(paths@),
                ps == chain_event_paths(*self.spec_chain()),
                applicable(matchers@),
                decided(matchers@) ==> forall|q: int| 0 <= q < i ==> !all_accept(matchers@, #[trigger] ps[q]),
        {
            if matches_exactly(&paths[i], matchers) {
                proof {
                    assert(ps[i as int] == paths@[i as int]@);
                    if decided(matchers@) {
                        assert(all_accept(matchers@, ps[i as int]));
                    }
                }
                return true;
            }
            proof {
                assert(ps[i as int] == paths@[i as int]@);
            }
        }
        false
    }

    /// Whether some event path holds deliveries matched by `matchers` one after
    /// another. An empty list always matches.
    pub fn segment<P: EntryPredicate<E, T>>(&self, matchers: &Vec<EventMatcher<E, T, P>>) -> (r: bool)
        requires
            applicable(matchers@),
        ensures
            decided(matchers@) ==> r == (matchers@.len() == 0 || exists|q: int, i: int|
                0 <= q < chain_event_paths(*self.spec_chain()).len() && 0 <= i && i + matchers@.len()
                    <= chain_event_paths(*self.spec_chain())[q].len() && all_accept(
                    matchers@,
                    #[trigger] chain_event_paths(*self.spec_chain())[q].subrange(i, i + matchers@.len()),
                )),
    {
        if matchers.len() == 0 {
            return true;
        }
        let paths = self.event_paths();
        let ghost ps = vecs_view(paths@);
        let m = matchers.len();
        let n = paths.len();
        for q in 0..n
            invariant
                n == paths@.len(),
                m == matchers@.len(),
                m > 0,
                ps == vecs_view(paths@),
                ps == chain_event_paths(*self.spec_chain()),
                applicable(matchers@),
                decided(matchers@) ==> forall|qq: int, i: int|
                    0 <= qq < q && 0 <= i && i + m <= ps[qq].len() ==> !all_accept(matchers@, #[trigger] ps[qq].subrange(i, i + m)),
        {
            let path = &paths[q];
            proof {
                assert(ps[q as int] == path@);
            }
            if path.len() >= m {
                let mut start: usize = 0;
                while start <= path.len() - m
                    invariant
                        m == matchers@.len(),
                        m <= path@.len(),
                        q < ps.len(),
                        ps == chain_event_paths(*self.spec_chain()),
                        ps[q as int] == path@,
                        start <= path@.len() - m + 1,
                        applicable(matchers@),
                        decided(matchers@) ==> forall|i: int|
                            0 <= i < start ==> !all_accept(matchers@, #[trigger] path@.subrange(i, i + m)),
                    decreases path@.len() - start,
                {
                    if matches_window(path, start, matchers) {
                        proof {
                            if decided(matchers@) {
                                let cp = chain_event_paths(*self.spec_chain());
                                assert(cp[q as int] == path@);
                                assert(0 <= start && start + m <= cp[q as int].len());
                                assert(all_accept(matchers@, cp[q as int].subrange(start as int, start + m)));
                            }
                        }
                        return true;
                    }
                    start = start + 1;
                }
            }
            proof {
                if decided(matchers@) {
                    assert forall|i: int| 0 <= i && i + m <= ps[q as int].len() implies !all_accept(
                        matchers@,
                        #[trigger] ps[q as int].subrange(i, i + m),
                    ) by {
                        assert(ps[q as int] == path@);
                    }
                }
            }
        }
        false
    }

    /// Whether some event path holds deliveries matched by `matchers` in
    /// order, gaps allowed. An empty list always matches.
    pub fn passes_through<P: EntryPredicate<E, T>>(&self, matchers: &Vec<EventMatcher<E, T, P>>) -> (r: bool)
        requires
            applicable(matchers@),
        ensures
            decided(matchers@) ==> r == (matchers@.len() == 0 || exists|q: int|
                0 <= q < chain_event_paths(*self.spec_chain()).len() && accepts_in_order(
                    matchers@,
                    #[trigger] chain_event_paths(*self.spec_chain())[q],
                )),
    {
        if matchers.len() == 0 {
            return true;
        }
        let paths = self.event_paths();
        let ghost ps = vecs_view(paths@);
        let n = paths.len();
        for i in 0..n
            invariant
                n == paths@.len(),
                ps == vecs_view(paths@),
                ps == chain_event_paths(*self.spec_chain()),
                applicable(matchers@),
                decided(matchers@) ==> forall|q: int| 0 <= q < i ==> !accepts_in_order(matchers@, #[trigger] ps[q]),
        {
            proof {
                assert(ps[i as int] == paths@[i as int]@);
            }
            if matches_in_order(&paths[i], matchers) {
                proof {
                    if decided(matchers@) {
                        assert(accepts_in_order(matchers@, ps[i as int]));
                    }
                }
                return true;
            }
        }
        false
    }
}

/// The contents of a list of lists.
pub open spec fn vecs_view<A>(v: Seq<Vec<A>>) -> Seq<Seq<A>> {
    v.map_values(|x: Vec<A>| x@)
}

/// A copy of a path of deliveries.
fn copy_path<E, T>(path: &Vec<EventEntry<E, T>>) -> (r: Vec<EventEntry<E, T>>)
    ensures
        r@ == path@,
{
    crate::testing::query::copy_entries(path)
}

/// Whether `matchers` match `path` position by position.
fn matches_exactly<E, T, P: EntryPredicate<E, T>>(path: &Vec<EventEntry<E, T>>, matchers: &Vec<EventMatcher<E, T, P>>) -> (r: bool)
    requires
        applicable(matchers@),
    ensures
        decided(matchers@) ==> r == all_accept(matchers@, path@),
{
    if path.len() != matchers.len() {
        return false;
    }
    let n = path.len();
    for k in 0..n
        invariant
            n == path@.len(),
            n == matchers@.len(),
            applicable(matchers@),
            decided(matchers@) ==> forall|j: int| 0 <= j < k ==> (#[trigger] matchers@[j]).predicate().answers(path@[j], true),
    {
        proof {
            assert(matchers@[k as int].predicate().callable(path@[k as int]));
        }
        if !matchers[k].matches(&path[k]) {
            return false;
        }
    }
    true
}

/// Whether `matchers` match the deliveries of `path` from position `start` on,
/// one after another.
fn matches_window<E, T, P: EntryPredicate<E, T>>(
    path: &Vec<EventEntry<E, T>>,
    start: usize,
    matchers: &Vec<EventMatcher<E, T, P>>,
) -> (r: bool)
    requires
        applicable(matchers@),
        start + matchers@.len() <= path@.len(),
    ensures
        decided(matchers@) ==> r == all_accept(matchers@, path@.subrange(start as int, start + matchers@.len())),
{
    let m = matchers.len();
    let total = path.len();
    let ghost w = path@.subrange(start as int, start + m);
    for k in 0..m
        invariant
            m == matchers@.len(),
            total == path@.len(),
            start + m <= path@.len(),
            w == path@.subrange(start as int, start + m),
            applicable(matchers@),
            decided(matchers@) ==> forall|j: int| 0 <= j < k ==> (#[trigger] matchers@[j]).predicate().answers(w[j], true),
    {
        proof {
            assert(start + k < path@.len());
            assert(w[k as int] == path@[start + k]);
            assert(matchers@[k as int].predicate().callable(path@[start + k]));
        }
        let at: usize = start + k;
        if !matchers[k].matches(&path[at]) {
            return false;
        }
    }
    true
}

/// Whether `matchers` match deliveries of `path` in order, gaps allowed,
/// each matcher taking the first delivery after the previous one's.
fn matches_in_order<E, T, P: EntryPredicate<E, T>>(path: &Vec<EventEntry<E, T>>, matchers: &Vec<EventMatcher<E, T, P>>) -> (r: bool)
    requires
        applicable(matchers@),
    ensures
        decided(matchers@) ==> r == accepts_in_order(matchers@, path@),
{
    let ghost ms = matchers@;
    let ghost p = path@;
    let mut idx: usize = 0;
    let n = path.len();
    proof {
        assert(ms.skip(0) =~= ms);
        assert(p.skip(0) =~= p);
    }
    for i in 0..n
        invariant
            n == p.len(),
            ms == matchers@,
            p == path@,
            idx <= ms.len(),
            applicable(matchers@),
            decided(ms) ==> accepts_in_order(ms, p) == accepts_in_order(ms.skip(idx as int), p.skip(i as int)),
    {
        proof {
            assert(p.skip(i as int).drop_first() =~= p.skip(i as int + 1));
            assert(p.skip(i as int)[0] == p[i as int]);
        }
        if idx < matchers.len() {
            proof {
                assert(ms.skip(idx as int)[0] == ms[idx as int]);
                assert(ms.skip(idx as int).drop_first() =~= ms.skip(idx as int + 1));
                assert(ms[idx as int].predicate().callable(p[i as int]));
            }
            if matchers[idx].matches(&path[i]) {
                idx = idx + 1;
            }
        } else {
            proof {
                assert(ms.skip(idx as int).len() == 0);
            }
        }
    }
    proof {
        assert(p.skip(n as int).len() == 0);
        if idx < ms.len() {
            assert(ms.skip(idx as int).len() > 0);
        }
    }
    idx == matchers.len()
}

impl<E, T> EventChain<E, T> {
    /// The actors this chain passed through.
    pub fn actors(&self) -> (r: ActorTrace<'_, E, T>)
        ensures
            *r.spec_chain() == *self,
    {
        ActorTrace::new(self)
    }

    /// The events of this chain.
    pub fn events(&self) -> (r: EventTrace<'_, E, T>)
        ensures
            *r.spec_chain() == *self,
    {
        EventTrace::new(self)
    }
}

/// Whether the names along `path` are exactly `actors`.
fn same_actors(path: &Vec<ActorId>, actors: &[&ActorId]) -> (r: bool)
    ensures
        r == (names_of(path@) == ref_names(actors@)),
{
    if path.len() != actors.len() {
        proof {
            assert(names_of(path@).len() != ref_names(actors@).len());
        }
        return false;
    }
    let n = path.len();
    for i in 0..n
        invariant
            n == path@.len(),
            n == actors@.len(),
            forall|j: int| 0 <= j < i ==> path@[j]@ == actors@[j]@,
    {
        if !(path[i] == *actors[i]) {
            proof {
                assert(names_of(path@)[i as int] != ref_names(actors@)[i as int]);
            }
            return false;
        }
    }
    proof {
        assert(names_of(path@) =~= ref_names(actors@));
    }
    true
}

/// Whether `paths` holds a path with the same actors as `path`.
fn contains_path(paths: &Vec<Vec<ActorId>>, path: &Vec<ActorId>) -> (r: bool)
    ensures
        r == path_names(paths@).contains(names_of(path@)),
{
    let n = paths.len();
    for i in 0..n
        invariant
            n == paths@.len(),
            forall|k: int| 0 <= k < i ==> path_names(paths@)[k] != names_of(path@),
    {
        if same_path(&paths[i], path) {
            proof {
                assert(path_names(paths@)[i as int] == names_of(path@));
            }
            return true;
        }
    }
    false
}

/// Whether two paths have the same actors in the same order.
fn same_path(a: &Vec<ActorId>, b: &Vec<ActorId>) -> (r: bool)
    ensures
        r == (names_of(a@) == names_of(b@)),
{
    if a.len() != b.len() {
        proof {
            assert(names_of(a@).len() != names_of(b@).len());
        }
        return false;
    }
    let n = a.len();
    for i in 0..n
        invariant
            n == a@.len(),
            n == b@.len(),
            forall|j: int| 0 <= j < i ==> a@[j]@ == b@[j]@,
    {
        if !(a[i] == b[i]) {
            proof {
                assert(names_of(a@)[i as int] != names_of(b@)[i as int]);
            }
            return false;
        }
    }
    proof {
        assert(names_of(a@) =~= names_of(b@));
    }
    true
}

/// A copy of a path of actors.
fn copy_actor_path(path: &Vec<ActorId>) -> (r: Vec<ActorId>)
    ensures
        names_of(r@) == names_of(path@),
{
    crate::routing::copy_ids(path)
}

/// A subsequence of the tail is a subsequence of the whole.
proof fn lemma_subsequence_of_tail<A>(x: Seq<A>, t: Seq<A>)
    requires
        t.len() > 0,
        is_subsequence(x, t.drop_first()),
    ensures
        is_subsequence(x, t),
    decreases t.len(), 0int,
{
    if x.len() > 0 && t[0] == x[0] {
        lemma_subsequence_without_first(x, t.drop_first());
    }
}

/// Dropping the first element of a subsequence leaves a subsequence.
proof fn lemma_subsequence_without_first<A>(x: Seq<A>, t: Seq<A>)
    requires
        x.len() > 0,
        is_subsequence(x, t),
    ensures
        is_subsequence(x.drop_first(), t),
    decreases t.len(), 1int,
{
    if t.len() > 0 {
        if t[0] == x[0] {
            lemma_subsequence_of_tail(x.drop_first(), t);
        } else {
            lemma_subsequence_without_first(x, t.drop_first());
            lemma_subsequence_of_tail(x.drop_first(), t);
        }
    }
}

/// A prefix is a subsequence.
proof fn lemma_prefix_is_subsequence<A>(x: Seq<A>, p: Seq<A>)
    requires
        x.len() <= p.len(),
        p.take(x.len() as int) == x,
    ensures
        is_subsequence(x, p),
    decreases x.len(),
{
    if x.len() > 0 {
        assert(p[0] == p.take(x.len() as int)[0]);
        assert(p.drop_first().take(x.drop_first().len() as int) =~= x.drop_first()) by {
            assert forall|k: int| 0 <= k < x.len() - 1 implies p.drop_first().take(x.drop_first().len() as int)[k] == x.drop_first()[k] by {
                assert(p.take(x.len() as int)[k + 1] == x[k + 1]);
            }
        }
        lemma_prefix_is_subsequence(x.drop_first(), p.drop_first());
    }
}

/// A contiguous block of a sequence is a subsequence of it.
proof fn lemma_segment_is_subsequence<A>(x: Seq<A>, p: Seq<A>, i: int)
    requires
        0 <= i,
        i + x.len() <= p.len(),
        p.subrange(i, i + x.len()) == x,
    ensures
        is_subsequence(x, p),
    decreases i,
{
    if i == 0 {
        assert(p.take(x.len() as int) =~= p.subrange(0, x.len() as int));
        lemma_prefix_is_subsequence(x, p);
    } else {
        assert(p.drop_first().subrange(i - 1, i - 1 + x.len()) =~= p.subrange(i, i + x.len()));
        lemma_segment_is_subsequence(x, p.drop_first(), i - 1);
        lemma_subsequence_of_tail(x, p);
    }
}

/// The actor-path tests nest: a list that is a whole path is a block of that
/// path, and a block of a path is visited in order by it.
pub proof fn law_actor_trace_tests_nest<E, T>(c: EventChain<E, T>, xs: Seq<Seq<char>>)
    ensures
        chain_actor_paths(c).contains(xs) ==> exists|q: int|
            0 <= q < chain_actor_paths(c).len() && has_segment(xs, #[trigger] chain_actor_paths(c)[q]),
        (exists|q: int| 0 <= q < chain_actor_paths(c).len() && has_segment(xs, #[trigger] chain_actor_paths(c)[q]))
            ==> exists|q: int| 0 <= q < chain_actor_paths(c).len() && is_subsequence(xs, #[trigger] chain_actor_paths(c)[q]),
{
    let ps = chain_actor_paths(c);
    if ps.contains(xs) {
        let q = choose|q: int| 0 <= q < ps.len() && ps[q] == xs;
        assert(ps[q].subrange(0int, 0int + xs.len()) =~= xs);
        assert(has_segment(xs, ps[q]));
    }
    if exists|q: int| 0 <= q < ps.len() && has_segment(xs, #[trigger] ps[q]) {
        let q = choose|q: int| 0 <= q < ps.len() && has_segment(xs, #[trigger] ps[q]);
        let i = choose|i: int| 0 <= i && i + xs.len() <= ps[q].len() && #[trigger] ps[q].subrange(i, i + xs.len()) == xs;
        lemma_segment_is_subsequence(xs, ps[q], i);
    }
}

/// Matchers accepting deliveries of the tail in order accept them in the whole.
proof fn lemma_in_order_of_tail<E, T, P: EntryPredicate<E, T>>(ms: Seq<EventMatcher<E, T, P>>, t: Seq<EventEntry<E, T>>)
    requires
        t.len() > 0,
        accepts_in_order(ms, t.drop_first()),
    ensures
        accepts_in_order(ms, t),
    decreases t.len(), 0int,
{
    if ms.len() > 0 && ms[0].predicate().answers(t[0], true) {
        lemma_in_order_without_first(ms, t.drop_first());
    }
}

/// Dropping the first matcher keeps an in-order acceptance.
proof fn lemma_in_order_without_first<E, T, P: EntryPredicate<E, T>>(ms: Seq<EventMatcher<E, T, P>>, t: Seq<EventEntry<E, T>>)
    requires
        ms.len() > 0,
        accepts_in_order(ms, t),
    ensures
        accepts_in_order(ms.drop_first(), t),
    decreases t.len(), 1int,
{
    if t.len() > 0 {
        if ms[0].predicate().answers(t[0], true) {
            lemma_in_order_of_tail(ms.drop_first(), t);
        } else {
            lemma_in_order_without_first(ms, t.drop_first());
            lemma_in_order_of_tail(ms.drop_first(), t);
        }
    }
}

/// Matchers accepting a prefix position by position accept the sequence in order.
proof fn lemma_prefix_in_order<E, T, P: EntryPredicate<E, T>>(ms: Seq<EventMatcher<E, T, P>>, p: Seq<EventEntry<E, T>>)
    requires
        ms.len() <= p.len(),
        all_accept(ms, p.take(ms.len() as int)),
    ensures
        accepts_in_order(ms, p),
    decreases ms.len(),
{
    if ms.len() > 0 {
        assert(p.take(ms.len() as int)[0] == p[0]);
        assert(all_accept(ms.drop_first(), p.drop_first().take(ms.drop_first().len() as int))) by {
            assert forall|k: int| 0 <= k < ms.drop_first().len() implies (#[trigger] ms.drop_first()[k]).predicate().answers(
                p.drop_first().take(ms.drop_first().len() as int)[k],
                true,
            ) by {
                assert(ms[k + 1].predicate().answers(p.take(ms.len() as int)[k + 1], true));
                assert(p.take(ms.len() as int)[k + 1] == p.drop_first().take(ms.drop_first().len() as int)[k]);
            }
        }
        lemma_prefix_in_order(ms.drop_first(), p.drop_first());
    }
}

/// Matchers accepting a window position by position accept the sequence in order.
proof fn lemma_window_in_order<E, T, P: EntryPredicate<E, T>>(ms: Seq<EventMatcher<E, T, P>>, p: Seq<EventEntry<E, T>>, i: int)
    requires
        0 <= i,
        i + ms.len() <= p.len(),
        all_accept(ms, p.subrange(i, i + ms.len())),
    ensures
        accepts_in_order(ms, p),
    decreases i,
{
    if i == 0 {
        assert(p.take(ms.len() as int) =~= p.subrange(0, ms.len() as int));
        lemma_prefix_in_order(ms, p);
    } else {
        assert(p.drop_first().subrange(i - 1, i - 1 + ms.len()) =~= p.subrange(i, i + ms.len()));
        lemma_window_in_order(ms, p.drop_first(), i - 1);
        lemma_in_order_of_tail(ms, p);
    }
}

/// The event-path tests nest: matchers that accept a whole path position by
/// position accept a block of it, and matchers that accept a block of a path
/// accept that path in order.
pub proof fn law_event_trace_tests_nest<E, T, P: EntryPredicate<E, T>>(c: EventChain<E, T>, ms: Seq<EventMatcher<E, T, P>>)
    ensures
        (exists|q: int| 0 <= q < chain_event_paths(c).len() && all_accept(ms, #[trigger] chain_event_paths(c)[q]))
            ==> exists|q: int, i: int|
            0 <= q < chain_event_paths(c).len() && 0 <= i && i + ms.len() <= chain_event_paths(c)[q].len() && all_accept(
                ms,
                #[trigger] chain_event_paths(c)[q].subrange(i, i + ms.len()),
            ),
        (exists|q: int, i: int|
            0 <= q < chain_event_paths(c).len() && 0 <= i && i + ms.len() <= chain_event_paths(c)[q].len() && all_accept(
                ms,
                #[trigger] chain_event_paths(c)[q].subrange(i, i + ms.len()),
            )) ==> exists|q: int| 0 <= q < chain_event_paths(c).len() && accepts_in_order(ms, #[trigger] chain_event_paths(c)[q]),
{
    let ps = chain_event_paths(c);
    if exists|q: int| 0 <= q < ps.len() && all_accept(ms, #[trigger] ps[q]) {
        let q = choose|q: int| 0 <= q < ps.len() && all_accept(ms, #[trigger] ps[q]);
        assert(ps[q].subrange(0int, 0int + ms.len()) =~= ps[q]);
        assert(all_accept(ms, ps[q].subrange(0int, 0int + ms.len())));
    }
    if exists|q: int, i: int|
        0 <= q < ps.len() && 0 <= i && i + ms.len() <= ps[q].len() && all_accept(ms, #[trigger] ps[q].subrange(i, i + ms.len())) {
        let (q, i) = choose|q: int, i: int|
            0 <= q < ps.len() && 0 <= i && i + ms.len() <= ps[q].len() && all_accept(ms, #[trigger] ps[q].subrange(i, i + ms.len()));
        lemma_window_in_order(ms, ps[q], i);
    }
}

/// Matchers that accept a sequence in order still do with any one of them left out.
proof fn lemma_in_order_without<E, T, P: EntryPredicate<E, T>>(ms: Seq<EventMatcher<E, T, P>>, t: Seq<EventEntry<E, T>>, k: int)
    requires
        0 <= k < ms.len(),
        accepts_in_order(ms, t),
    ensures
        accepts_in_order(ms.remove(k), t),
    decreases t.len(),
{
    if ms.remove(k).len() == 0 {
        return;
    }
    if t.len() > 0 {
        if ms[0].predicate().answers(t[0], true) {
            if k == 0 {
                assert(ms.remove(0) =~= ms.drop_first());
                lemma_in_order_of_tail(ms.drop_first(), t);
            } else {
                assert(ms.remove(k)[0] == ms[0]);
                assert(ms.remove(k).drop_first() =~= ms.drop_first().remove(k - 1));
                lemma_in_order_without(ms.drop_first(), t.drop_first(), k - 1);
            }
        } else {
            lemma_in_order_without(ms, t.drop_first(), k);
            lemma_in_order_of_tail(ms.remove(k), t);
        }
    }
}

/// When matchers accept some event path in order, so do they with any one of
/// them left out.
pub proof fn law_event_trace_in_order_without_one<E, T, P: EntryPredicate<E, T>>(c: EventChain<E, T>, ms: Seq<EventMatcher<E, T, P>>, k: int)
    requires
        0 <= k < ms.len(),
    ensures
        (exists|q: int| 0 <= q < chain_event_paths(c).len() && accepts_in_order(ms, #[trigger] chain_event_paths(c)[q])) ==> exists|q: int|
            0 <= q < chain_event_paths(c).len() && accepts_in_order(ms.remove(k), #[trigger] chain_event_paths(c)[q]),
{
    let ps = chain_event_paths(c);
    if exists|q: int| 0 <= q < ps.len() && accepts_in_order(ms, #[trigger] ps[q]) {
        let q = choose|q: int| 0 <= q < ps.len() && accepts_in_order(ms, #[trigger] ps[q]);
        lemma_in_order_without(ms, ps[q], k);
    }
}

} // verus!
