//! Observing the runtime: the monitor interface and the actor lifecycle
//! bookkeeping.
use vstd::prelude::*;

use crate::envelope::Envelope;
use crate::ids::ActorId;
use crate::policy::{OverflowPolicy, StepAction};
use crate::routing::{contains_name, copy_ids, names_of, without};
use crate::seqs::{lemma_filter_members, other_than};
use crate::topic::{DefaultTopic, Event, Topic};

verus! {

/// Receives notifications about what happens in the runtime. Every method does
/// nothing unless an implementation says otherwise.
pub trait Monitor<E: Event, T: Topic<E> = DefaultTopic>: Send {
    /// The broker put an event into a subscriber's mailbox.
    fn on_event_dispatched(&self, envelope: &Envelope<E>, topic: &T, receiver: &ActorId) {
    }

    /// An actor took an event out of its mailbox.
    fn on_event_delivered(&self, envelope: &Envelope<E>, topic: &T, receiver: &ActorId) {
    }

    /// An actor finished handling an event.
    fn on_event_handled(&self, envelope: &Envelope<E>, topic: &T, receiver: &ActorId) {
    }

    /// An actor was registered with the broker.
    fn on_actor_registered(&self, actor_id: &ActorId) {
    }

    /// An actor reported an error.
    fn on_error(&self, err: &str, actor_id: &ActorId) {
    }

    /// An actor's `step` is about to run.
    fn on_step_enter(&self, actor_id: &ActorId) {
    }

    /// An actor's `step` returned an action.
    fn on_step_exit(&self, step_action: &StepAction, actor_id: &ActorId) {
    }

    /// A subscriber's mailbox was full when the broker offered it an event.
    fn on_overflow(&self, envelope: &Envelope<E>, topic: &T, receiver: &ActorId, policy: OverflowPolicy) {
    }

    /// An actor stopped.
    fn on_actor_stop(&self, actor_id: &ActorId) {
    }
}

/// The number recorded for `x` among parallel lists of names and counts, or 0.
pub open spec fn count_for(names: Seq<Seq<char>>, counts: Seq<usize>, x: Seq<char>) -> nat {
    if exists|j: int| 0 <= j < names.len() && names[j] == x {
        counts[choose|j: int| 0 <= j < names.len() && names[j] == x] as nat
    } else {
        0
    }
}

/// Tracks which actors are alive, which have stopped, and how often each
/// subscriber's mailbox overflowed.
#[derive(Debug)]
pub struct ActorMonitor {
    active: Vec<ActorId>,
    stopped: Vec<ActorId>,
    overflow_names: Vec<ActorId>,
    overflow_counts: Vec<usize>,
}

impl ActorMonitor {
    /// The actors registered and not stopped since.
    pub closed spec fn alive(&self) -> Set<Seq<char>> {
        names_of(self.active@).to_set()
    }

    /// The actors stopped and not registered again since.
    pub closed spec fn stopped(&self) -> Set<Seq<char>> {
        names_of(self.stopped@).to_set()
    }

    /// How many overflows were recorded for actor `x`.
    pub closed spec fn overflows(&self, x: Seq<char>) -> nat {
        count_for(names_of(self.overflow_names@), self.overflow_counts@, x)
    }

    /// The bookkeeping's invariant: each actor is listed at most once per list,
    /// each listed name has its count, and no actor is both alive and stopped.
    /// Every monitor keeps it.
    #[verifier::type_invariant]
    pub closed spec fn wf(&self) -> bool {
        &&& names_of(self.active@).no_duplicates()
        &&& names_of(self.stopped@).no_duplicates()
        &&& names_of(self.overflow_names@).no_duplicates()
        &&& self.overflow_names@.len() == self.overflow_counts@.len()
        &&& forall|x: Seq<char>| #[trigger] self.alive().contains(x) ==> !self.stopped().contains(x)
    }

    /// A monitor that has seen nothing.
    pub fn new() -> (r: ActorMonitor)
        ensures
            r.wf(),
            r.alive() == Set::<Seq<char>>::empty(),
            r.stopped() == Set::<Seq<char>>::empty(),
            forall|x: Seq<char>| #[trigger] r.overflows(x) == 0,
    {
        let r = ActorMonitor { active: Vec::new(), stopped: Vec::new(), overflow_names: Vec::new(), overflow_counts: Vec::new() };
        proof {
            assert(names_of(r.active@) =~= Seq::empty());
            assert(names_of(r.stopped@) =~= Seq::empty());
            assert(names_of(r.overflow_names@) =~= Seq::empty());
            assert(r.alive() =~= Set::empty());
            assert(r.stopped() =~= Set::empty());
        }
        r
    }

    /// The alive actors, each once.
    pub fn actors(&self) -> (r: Vec<ActorId>)
        ensures
            names_of(r@).to_set() == self.alive(),
            names_of(r@).no_duplicates(),
    {
        proof {
            use_type_invariant(self);
        }
        copy_ids(&self.active)
    }

    /// The stopped actors, each once.
    pub fn stopped_actors(&self) -> (r: Vec<ActorId>)
        ensures
            names_of(r@).to_set() == self.stopped(),
            names_of(r@).no_duplicates(),
    {
        proof {
            use_type_invariant(self);
        }
        copy_ids(&self.stopped)
    }

    /// Whether `actor` is alive.
    pub fn is_alive(&self, actor: &ActorId) -> (r: bool)
        ensures
            r == self.alive().contains(actor@),
    {
        contains_name(&self.active, actor)
    }

    /// How many overflows were recorded for `actor`; 0 for an actor never seen.
    pub fn overflow_count(&self, actor: &ActorId) -> (r: usize)
        ensures
            r == self.overflows(actor@),
    {
        proof {
            use_type_invariant(self);
        }
        match find_name(&self.overflow_names, actor) {
            Some(j) => {
                proof {
                    lemma_count_at(names_of(self.overflow_names@), self.overflow_counts@, j as int);
                }
                self.overflow_counts[j]
            },
            None => 0,
        }
    }

    /// Records that `actor_id` was registered: it is alive and no longer stopped.
    pub fn on_actor_registered(&mut self, actor_id: &ActorId)
        ensures
            final(self).wf(),
            final(self).alive() == old(self).alive().insert(actor_id@),
            final(self).stopped() == old(self).stopped().remove(actor_id@),
            forall|x: Seq<char>| #[trigger] final(self).overflows(x) == old(self).overflows(x),
    {
        proof {
            use_type_invariant(&*self);
        }
        let ghost before = *self;
        let stopped = without(&self.stopped, actor_id);
        let mut active = copy_ids(&self.active);
        proof {
            lemma_without_set(names_of(before.stopped@), actor_id@);
        }
        if !contains_name(&self.active, actor_id) {
            let ghost a = names_of(active@);
            active.push(actor_id.clone());
            proof {
                assert(names_of(active@) =~= a.push(actor_id@));
                lemma_push_fresh(a, actor_id@);
            }
        } else {
            proof {
                assert(before.alive().insert(actor_id@) =~= before.alive());
            }
        }
        let overflow_names = copy_ids(&self.overflow_names);
        let overflow_counts = copy_counts(&self.overflow_counts);
        proof {
            assert forall|x: Seq<char>| #[trigger] names_of(active@).to_set().contains(x) implies !names_of(stopped@).to_set().contains(
                x,
            ) by {
                if x != actor_id@ {
                    assert(before.alive().contains(x));
                }
            }
        }
        *self = ActorMonitor { active, stopped, overflow_names, overflow_counts };
    }

    /// Records that `actor_id` stopped: it is no longer alive and is stopped.
    pub fn on_actor_stop(&mut self, actor_id: &ActorId)
        ensures
            final(self).wf(),
            final(self).alive() == old(self).alive().remove(actor_id@),
            final(self).stopped() == old(self).stopped().insert(actor_id@),
            forall|x: Seq<char>| #[trigger] final(self).overflows(x) == old(self).overflows(x),
    {
        proof {
            use_type_invariant(&*self);
        }
        let ghost before = *self;
        let active = without(&self.active, actor_id);
        let mut stopped = copy_ids(&self.stopped);
        proof {
            lemma_without_set(names_of(before.active@), actor_id@);
        }
        if !contains_name(&self.stopped, actor_id) {
            let ghost a = names_of(stopped@);
            stopped.push(actor_id.clone());
            proof {
                assert(names_of(stopped@) =~= a.push(actor_id@));
                lemma_push_fresh(a, actor_id@);
            }
        } else {
            proof {
                assert(before.stopped().insert(actor_id@) =~= before.stopped());
            }
        }
        let overflow_names = copy_ids(&self.overflow_names);
        let overflow_counts = copy_counts(&self.overflow_counts);
        proof {
            assert forall|x: Seq<char>| #[trigger] names_of(active@).to_set().contains(x) implies !names_of(stopped@).to_set().contains(
                x,
            ) by {
                assert(before.alive().contains(x));
            }
        }
        *self = ActorMonitor { active, stopped, overflow_names, overflow_counts };
    }

    /// Records one overflow of `receiver`'s mailbox.
    pub fn on_overflow(&mut self, receiver: &ActorId)
        requires
            old(self).overflows(receiver@) < usize::MAX,
        ensures
            final(self).wf(),
            final(self).alive() == old(self).alive(),
            final(self).stopped() == old(self).stopped(),
            forall|x: Seq<char>| #[trigger] final(self).overflows(x) == if x == receiver@ {
                old(self).overflows(x) + 1
            } else {
                old(self).overflows(x)
            },
    {
        proof {
            use_type_invariant(&*self);
        }
        let ghost before = *self;
        let ghost names0 = names_of(self.overflow_names@);
        let ghost counts0 = self.overflow_counts@;
        let active = copy_ids(&self.active);
        let stopped = copy_ids(&self.stopped);
        let mut names = copy_ids(&self.overflow_names);
        let mut counts = copy_counts(&self.overflow_counts);
        match find_name(&self.overflow_names, receiver) {
            Some(j) => {
                proof {
                    lemma_count_at(names0, counts0, j as int);
                }
                let c = counts[j];
                counts.set(j, c + 1);
                proof {
                    assert(names_of(names@) == names0);
                    assert forall|x: Seq<char>| #[trigger] count_for(names0, counts@, x) == if x == receiver@ {
                        count_for(names0, counts0, x) + 1
                    } else {
                        count_for(names0, counts0, x)
                    } by {
                        if exists|k: int| 0 <= k < names0.len() && names0[k] == x {
                            let k = choose|k: int| 0 <= k < names0.len() && names0[k] == x;
                            lemma_count_at(names0, counts0, k);
                            lemma_count_at(names0, counts@, k);
                        }
                    }
                }
            },
            None => {
                let ghost counts_before = counts@;
                names.push(receiver.clone());
                counts.push(1);
                proof {
                    let names1 = names_of(names@);
                    assert(names1 =~= names0.push(receiver@));
                    lemma_push_fresh(names0, receiver@);
                    assert forall|x: Seq<char>| #[trigger] count_for(names1, counts@, x) == if x == receiver@ {
                        count_for(names0, counts0, x) + 1
                    } else {
                        count_for(names0, counts0, x)
                    } by {
                        if exists|k: int| 0 <= k < names1.len() && names1[k] == x {
                            let k = choose|k: int| 0 <= k < names1.len() && names1[k] == x;
                            lemma_count_at(names1, counts@, k);
                            if k < names0.len() {
                                assert(names0[k] == x);
                                lemma_count_at(names0, counts0, k);
                                assert(counts@[k] == counts0[k]);
                            }
                        } else {
                            assert(!names0.contains(x)) by {
                                if names0.contains(x) {
                                    let k = choose|k: int| 0 <= k < names0.len() && names0[k] == x;
                                    assert(names1[k] == x);
                                }
                            }
                            assert(names1[names0.len() as int] == receiver@);
                        }
                    }
                }
            },
        }
        proof {
            assert forall|x: Seq<char>| #[trigger] names_of(active@).to_set().contains(x) implies !names_of(stopped@).to_set().contains(
                x,
            ) by {
                assert(before.alive().contains(x));
            }
        }
        *self = ActorMonitor { active, stopped, overflow_names: names, overflow_counts: counts };
    }
}

impl Default for ActorMonitor {
    fn default() -> (r: ActorMonitor)
        ensures
            r.wf(),
            r.alive() == Set::<Seq<char>>::empty(),
            r.stopped() == Set::<Seq<char>>::empty(),
            forall|x: Seq<char>| #[trigger] r.overflows(x) == 0,
    {
        ActorMonitor::new()
    }
}

/// No actor is both alive and stopped.
pub proof fn law_alive_and_stopped_are_disjoint(m: ActorMonitor, x: Seq<char>)
    requires
        m.wf(),
    ensures
        !(m.alive().contains(x) && m.stopped().contains(x)),
{
}

/// Registering an actor and then stopping it leaves it stopped and not alive,
/// and leaves every other actor as it was; registering it again revives it.
pub proof fn law_register_stop_register(m0: ActorMonitor, m1: ActorMonitor, m2: ActorMonitor, m3: ActorMonitor, x: Seq<char>)
    requires
        m1.alive() == m0.alive().insert(x),
        m1.stopped() == m0.stopped().remove(x),
        m2.alive() == m1.alive().remove(x),
        m2.stopped() == m1.stopped().insert(x),
        m3.alive() == m2.alive().insert(x),
        m3.stopped() == m2.stopped().remove(x),
    ensures
        !m2.alive().contains(x),
        m2.stopped().contains(x),
        forall|y: Seq<char>| y != x ==> (#[trigger] m2.alive().contains(y) == m0.alive().contains(y) && m2.stopped().contains(y)
            == m0.stopped().contains(y)),
        m3.alive().contains(x),
        !m3.stopped().contains(x),
{
}

/// One call made on a monitor, by the actor name it concerns.
pub enum MonitorCall {
    /// `on_actor_registered`.
    Registered(Seq<char>),
    /// `on_actor_stop`.
    Stopped(Seq<char>),
    /// `on_overflow`.
    Overflowed(Seq<char>),
}

/// What the monitor's contracts say one call does to its alive and stopped sets.
pub open spec fn applies(call: MonitorCall, m0: ActorMonitor, m1: ActorMonitor) -> bool {
    match call {
        MonitorCall::Registered(x) => m1.alive() == m0.alive().insert(x) && m1.stopped() == m0.stopped().remove(x),
        MonitorCall::Stopped(x) => m1.alive() == m0.alive().remove(x) && m1.stopped() == m0.stopped().insert(x),
        MonitorCall::Overflowed(x) => m1.alive() == m0.alive() && m1.stopped() == m0.stopped(),
    }
}

/// Actor `a` was registered in `h` and not stopped after that.
pub open spec fn registered_since(h: Seq<MonitorCall>, a: Seq<char>) -> bool {
    exists|i: int|
        0 <= i < h.len() && #[trigger] h[i] == MonitorCall::Registered(a) && forall|j: int|
            i < j < h.len() ==> #[trigger] h[j] != MonitorCall::Stopped(a)
}

/// Actor `a` was stopped in `h` and not registered after that.
pub open spec fn stopped_since(h: Seq<MonitorCall>, a: Seq<char>) -> bool {
    exists|i: int|
        0 <= i < h.len() && #[trigger] h[i] == MonitorCall::Stopped(a) && forall|j: int|
            i < j < h.len() ==> #[trigger] h[j] != MonitorCall::Registered(a)
}

/// Over any history of calls on a fresh monitor, an actor is alive exactly when
/// it was registered and not stopped since, and stopped exactly when it was
/// stopped and not registered since; overflows change neither.
pub proof fn law_monitor_history(ms: Seq<ActorMonitor>, h: Seq<MonitorCall>)
    requires
        ms.len() == h.len() + 1,
        ms[0].alive() == Set::<Seq<char>>::empty(),
        ms[0].stopped() == Set::<Seq<char>>::empty(),
        forall|i: int| 0 <= i < h.len() ==> applies(#[trigger] h[i], ms[i], ms[i + 1]),
    ensures
        forall|a: Seq<char>| #[trigger] ms.last().alive().contains(a) <==> registered_since(h, a),
        forall|a: Seq<char>| #[trigger] ms.last().stopped().contains(a) <==> stopped_since(h, a),
    decreases h.len(),
{
    if h.len() > 0 {
        let n = h.len() - 1;
        let hp = h.take(n);
        let mp = ms.take(n + 1);
        assert forall|i: int| 0 <= i < hp.len() implies applies(#[trigger] hp[i], mp[i], mp[i + 1]) by {
            assert(applies(h[i], ms[i], ms[i + 1]));
        }
        law_monitor_history(mp, hp);
        let c = h[n];
        assert(applies(c, ms[n], ms[n + 1]));
        assert(mp.last() == ms[n]);
        assert forall|a: Seq<char>| #[trigger] ms.last().alive().contains(a) <==> registered_since(h, a) by {
            assert(ms[n].alive().contains(a) <==> registered_since(hp, a));
            if registered_since(hp, a) {
                let i = choose|i: int|
                    0 <= i < hp.len() && #[trigger] hp[i] == MonitorCall::Registered(a) && forall|j: int|
                        i < j < hp.len() ==> #[trigger] hp[j] != MonitorCall::Stopped(a);
                assert(h[i] == MonitorCall::Registered(a));
                if c != MonitorCall::Stopped(a) {
                    assert forall|j: int| i < j < h.len() implies #[trigger] h[j] != MonitorCall::Stopped(a) by {
                        if j < n {
                            assert(hp[j] == h[j]);
                        }
                    }
                }
            }
            if registered_since(h, a) {
                let i = choose|i: int|
                    0 <= i < h.len() && #[trigger] h[i] == MonitorCall::Registered(a) && forall|j: int|
                        i < j < h.len() ==> #[trigger] h[j] != MonitorCall::Stopped(a);
                if i < n {
                    assert(hp[i] == MonitorCall::Registered(a));
                    assert forall|j: int| i < j < hp.len() implies #[trigger] hp[j] != MonitorCall::Stopped(a) by {
                        assert(h[j] != MonitorCall::Stopped(a));
                    }
                    assert(registered_since(hp, a));
                }
            }
            if c == MonitorCall::Registered(a) {
                assert(h[n] == MonitorCall::Registered(a));
            }
        }
        assert forall|a: Seq<char>| #[trigger] ms.last().stopped().contains(a) <==> stopped_since(h, a) by {
            assert(ms[n].stopped().contains(a) <==> stopped_since(hp, a));
            if stopped_since(hp, a) {
                let i = choose|i: int|
                    0 <= i < hp.len() && #[trigger] hp[i] == MonitorCall::Stopped(a) && forall|j: int|
                        i < j < hp.len() ==> #[trigger] hp[j] != MonitorCall::Registered(a);
                assert(h[i] == MonitorCall::Stopped(a));
                if c != MonitorCall::Registered(a) {
                    assert forall|j: int| i < j < h.len() implies #[trigger] h[j] != MonitorCall::Registered(a) by {
                        if j < n {
                            assert(hp[j] == h[j]);
                        }
                    }
                }
            }
            if stopped_since(h, a) {
                let i = choose|i: int|
                    0 <= i < h.len() && #[trigger] h[i] == MonitorCall::Stopped(a) && forall|j: int|
                        i < j < h.len() ==> #[trigger] h[j] != MonitorCall::Registered(a);
                if i < n {
                    assert(hp[i] == MonitorCall::Stopped(a));
                    assert forall|j: int| i < j < hp.len() implies #[trigger] hp[j] != MonitorCall::Registered(a) by {
                        assert(h[j] != MonitorCall::Registered(a));
                    }
                    assert(stopped_since(hp, a));
                }
            }
            if c == MonitorCall::Stopped(a) {
                assert(h[n] == MonitorCall::Stopped(a));
            }
        }
    } else {
        assert(ms.last() == ms[0]);
    }
}

/// A copy of a list of counts.
fn copy_counts(v: &Vec<usize>) -> (r: Vec<usize>)
    ensures
        r@ == v@,
{
    let mut r: Vec<usize> = Vec::new();
    let n = v.len();
    for i in 0..n
        invariant
            n == v@.len(),
            r@ == v@.take(i as int),
    {
        r.push(v[i]);
        proof {
            assert(r@ =~= v@.take(i as int + 1));
        }
    }
    proof {
        assert(v@.take(n as int) =~= v@);
    }
    r
}

/// The position of an actor named like `id` among `ids`.
fn find_name(ids: &Vec<ActorId>, id: &ActorId) -> (r: Option<usize>)
    ensures
        r matches Some(j) ==> j < ids@.len() && ids@[j as int]@ == id@,
        r is None ==> !names_of(ids@).contains(id@),
{
    let n = ids.len();
    for i in 0..n
        invariant
            n == ids@.len(),
            forall|k: int| 0 <= k < i ==> ids@[k]@ != id@,
    {
        if ids[i] == *id {
            return Some(i);
        }
    }
    proof {
        if names_of(ids@).contains(id@) {
            let k = choose|k: int| 0 <= k < names_of(ids@).len() && names_of(ids@)[k] == id@;
            assert(ids@[k]@ == id@);
        }
    }
    None
}

/// With distinct names, the count for the name at `j` is the count at `j`.
proof fn lemma_count_at(names: Seq<Seq<char>>, counts: Seq<usize>, j: int)
    requires
        names.no_duplicates(),
        0 <= j < names.len(),
    ensures
        count_for(names, counts, names[j]) == counts[j] as nat,
{
    let k = choose|k: int| 0 <= k < names.len() && names[k] == names[j];
    assert(k == j);
}

/// Appending a name that does not occur keeps the names distinct and adds it
/// to their set.
proof fn lemma_push_fresh(s: Seq<Seq<char>>, x: Seq<char>)
    requires
        s.no_duplicates(),
        !s.contains(x),
    ensures
        s.push(x).no_duplicates(),
        s.push(x).to_set() == s.to_set().insert(x),
{
    let p = s.push(x);
    assert forall|a: int, b: int| 0 <= a < p.len() && 0 <= b < p.len() && a != b implies p[a] != p[b] by {
        if a == s.len() {
            assert(s.contains(p[b]));
        } else if b == s.len() {
            assert(s.contains(p[a]));
        }
    }
    assert forall|y: Seq<char>| p.to_set().contains(y) <==> s.to_set().insert(x).contains(y) by {
        if p.contains(y) && y != x {
            let k = choose|k: int| 0 <= k < p.len() && p[k] == y;
            assert(s[k] == y);
        }
        if s.contains(y) {
            let k = choose|k: int| 0 <= k < s.len() && s[k] == y;
            assert(p[k] == y);
        }
        if y == x {
            assert(p[s.len() as int] == y);
        }
    }
    assert(p.to_set() =~= s.to_set().insert(x));
}

/// Filtering a name out of distinct names removes it from their set and keeps
/// them distinct.
proof fn lemma_without_set(s: Seq<Seq<char>>, x: Seq<char>)
    ensures
        s.filter(other_than(x)).to_set() == s.to_set().remove(x),
        s.no_duplicates() ==> s.filter(other_than(x)).no_duplicates(),
{
    lemma_filter_members(s, other_than(x));
    assert(s.filter(other_than(x)).to_set() =~= s.to_set().remove(x));
}

/// A monitor added to a table, with its identifier and whether it is paused.
pub struct MonitorSlot<M> {
    /// The identifier handed out when the monitor was added.
    pub id: u16,
    /// The monitor.
    pub monitor: M,
    /// Whether the monitor is paused (it then receives no reports).
    pub paused: bool,
}

/// The monitors a dispatcher hands reports to, in the order they were added,
/// and the identifier the next one gets.
pub struct MonitorTable<M> {
    slots: Vec<MonitorSlot<M>>,
    next_id: u16,
}

/// The identifier that follows `id`, wrapping after the largest.
pub open spec fn id_after(id: u16) -> u16 {
    if id == u16::MAX {
        0
    } else {
        (id + 1) as u16
    }
}

/// What pausing or resuming does to one slot: a slot the request names (every
/// slot, for `None`) takes the new state; others keep theirs.
pub open spec fn paused_after(slot_id: u16, was: bool, target: Option<u16>, paused: bool) -> bool {
    if target is None || target == Some(slot_id) {
        paused
    } else {
        was
    }
}

/// Pausing or resuming one monitor sets exactly the slots with its identifier
/// to the requested state, pausing or resuming all sets every slot, and no
/// other slot changes; so resuming a monitor after pausing it makes it listen
/// again, and pausing after resuming silences it.
pub proof fn law_pause_and_resume(slot_id: u16, was: bool, target: u16, paused: bool)
    ensures
        paused_after(slot_id, was, Some(slot_id), paused) == paused,
        paused_after(slot_id, was, None, paused) == paused,
        target != slot_id ==> paused_after(slot_id, was, Some(target), paused) == was,
        paused_after(slot_id, paused_after(slot_id, was, Some(target), true), Some(target), false) == if target == slot_id {
            false
        } else {
            was
        },
        paused_after(slot_id, paused_after(slot_id, was, Some(target), false), Some(target), true) == if target == slot_id {
            true
        } else {
            was
        },
{
}

impl<M> MonitorTable<M> {
    /// The slots, in the order their monitors were added.
    pub closed spec fn spec_slots(&self) -> Seq<MonitorSlot<M>> {
        self.slots@
    }

    /// The identifier the next added monitor gets.
    pub closed spec fn spec_next_id(&self) -> u16 {
        self.next_id
    }

    /// Whether any monitor listens: some slot is not paused.
    pub open spec fn spec_active(&self) -> bool {
        exists|k: int| 0 <= k < self.spec_slots().len() && !(#[trigger] self.spec_slots()[k]).paused
    }

    /// No monitors; the first added gets identifier 0.
    pub fn new() -> (r: MonitorTable<M>)
        ensures
            r.spec_slots().len() == 0,
            r.spec_next_id() == 0,
    {
        MonitorTable { slots: Vec::new(), next_id: 0 }
    }

    /// Adds a monitor, listening, under the next identifier, which it returns.
    pub fn add(&mut self, monitor: M) -> (id: u16)
        ensures
            id == old(self).spec_next_id(),
            final(self).spec_next_id() == id_after(id),
            final(self).spec_slots() == old(self).spec_slots().push(MonitorSlot { id, monitor, paused: false }),
    {
        let id = self.next_id;
        self.next_id = if self.next_id == u16::MAX {
            0
        } else {
            self.next_id + 1
        };
        self.slots.push(MonitorSlot { id, monitor, paused: false });
        id
    }

    /// Removes every monitor with identifier `id`; the others keep their order.
    pub fn remove(&mut self, id: u16)
        ensures
            final(self).spec_next_id() == old(self).spec_next_id(),
            final(self).spec_slots() == old(self).spec_slots().filter(|s: MonitorSlot<M>| s.id != id),
    {
        let ghost all = self.slots@;
        let ghost f = |s: MonitorSlot<M>| s.id != id;
        let mut kept: Vec<MonitorSlot<M>> = Vec::new();
        let len0 = self.slots.len();
        let mut rest: Vec<MonitorSlot<M>> = Vec::new();
        std::mem::swap(&mut rest, &mut self.slots);
        let ghost n = all.len();
        proof {
            assert(all.take(0).filter(f) =~= kept@);
            assert(rest@ == all.skip(0));
        }
        let mut i: usize = 0;
        while rest.len() > 0
            invariant
                rest@.len() + i == n,
                n == len0,
                rest@ == all.skip(i as int),
                kept@ == all.take(i as int).filter(f),
                f == (|s: MonitorSlot<M>| s.id != id),
                n == all.len(),
            decreases rest@.len(),
        {
            let slot = rest.remove(0);
            proof {
                assert(slot == all[i as int]);
                assert(rest@ =~= all.skip(i as int + 1));
                crate::seqs::lemma_filter_step(all, f, i as int);
            }
            if slot.id != id {
                kept.push(slot);
            }
            i = i + 1;
        }
        proof {
            assert(all.take(n as int) =~= all);
        }
        self.slots = kept;
    }

    /// Pauses (or resumes) the monitor with identifier `target`, or every
    /// monitor for `None`.
    pub fn set_paused(&mut self, target: Option<u16>, paused: bool)
        ensures
            final(self).spec_next_id() == old(self).spec_next_id(),
            final(self).spec_slots().len() == old(self).spec_slots().len(),
            forall|k: int| 0 <= k < old(self).spec_slots().len() ==> {
                &&& (#[trigger] final(self).spec_slots()[k]).id == old(self).spec_slots()[k].id
                &&& final(self).spec_slots()[k].monitor == old(self).spec_slots()[k].monitor
                &&& final(self).spec_slots()[k].paused == paused_after(
                    old(self).spec_slots()[k].id,
                    old(self).spec_slots()[k].paused,
                    target,
                    paused,
                )
            },
    {
        let n = self.slots.len();
        for k in 0..n
            invariant
                n == old(self).slots@.len(),
                self.slots@.len() == n,
                self.next_id == old(self).next_id,
                forall|j: int| 0 <= j < n ==> {
                    &&& (#[trigger] self.slots@[j]).id == old(self).slots@[j].id
                    &&& self.slots@[j].monitor == old(self).slots@[j].monitor
                    &&& self.slots@[j].paused == if j < k {
                        paused_after(old(self).slots@[j].id, old(self).slots@[j].paused, target, paused)
                    } else {
                        old(self).slots@[j].paused
                    }
                },
        {
            let names = match target {
                None => true,
                Some(t) => self.slots[k].id == t,
            };
            if names {
                let ghost before = self.slots@;
                let mut slot = self.slots.remove(k);
                slot.paused = paused;
                self.slots.insert(k, slot);
                proof {
                    assert forall|j: int| 0 <= j < n implies self.slots@[j] == if j == k {
                        MonitorSlot { id: before[j].id, monitor: before[j].monitor, paused }
                    } else {
                        before[j]
                    } by {
                        if j < k {
                            assert(self.slots@[j] == before[j]);
                        }
                    }
                }
            }
        }
    }

    /// Whether any monitor listens.
    pub fn is_active(&self) -> (r: bool)
        ensures
            r == self.spec_active(),
    {
        let n = self.slots.len();
        for k in 0..n
            invariant
                n == self.spec_slots().len(),
                forall|j: int| 0 <= j < k ==> self.spec_slots()[j].paused,
        {
            if !self.slots[k].paused {
                proof {
                    assert(!self.spec_slots()[k as int].paused);
                }
                return true;
            }
        }
        false
    }

    /// The number of monitors.
    pub fn len(&self) -> (r: usize)
        ensures
            r == self.spec_slots().len(),
    {
        self.slots.len()
    }

    /// The monitor at position `k`, if it listens.
    pub fn listening(&self, k: usize) -> (r: Option<&M>)
        ensures
            r == (if k < self.spec_slots().len() && !self.spec_slots()[k as int].paused {
                Some(&self.spec_slots()[k as int].monitor)
            } else {
                None
            }),
    {
        if k < self.slots.len() && !self.slots[k].paused {
            Some(&self.slots[k].monitor)
        } else {
            None
        }
    }
}

} // verus!
