use vstd::prelude::*;

use crate::ids::{ActorId, EventId};
use crate::seqs::{firsts, has_key, keep, lemma_filter_step, lemma_firsts_keys, lemma_firsts_step, lemma_keep_is_filter, lemma_keep_step};
use crate::testing::entry::EventEntry;
use crate::testing::matcher::{ByEntry, ByEvent, ById, ByLabel, ByLabelText, EntryPredicate, IntoMatcher};
use crate::topic::{label_string, Label};
use std::sync::Arc;
use vstd::std_specs::cmp::PartialEqSpec;

verus! {

/// Recorded deliveries, shared between the harness and its queries.
pub type EventRecords<E, T> = Arc<Vec<EventEntry<E, T>>>;

/// `r` is what remains of `s` after applying test `p` to every element and
/// keeping those it answered `true` for, in order.
pub open spec fn selection<E, T, P: EntryPredicate<E, T>>(
    p: P,
    s: Seq<EventEntry<E, T>>,
    r: Seq<EventEntry<E, T>>,
) -> bool {
    exists|mask: Seq<bool>|
        {
            &&& mask.len() == s.len()
            &&& forall|i: int| 0 <= i < s.len() ==> p.answers(s[i], mask[i])
            &&& #[trigger] keep(s, mask) == r
        }
}

/// Test `p` may be applied to every element of `s`.
pub open spec fn callable_on<E, T, P: EntryPredicate<E, T>>(p: P, s: Seq<EventEntry<E, T>>) -> bool {
    forall|i: int| 0 <= i < s.len() ==> p.callable(s[i])
}

/// The deliveries of the event with id `id`.
pub open spec fn id_is<E, T>(id: EventId) -> spec_fn(EventEntry<E, T>) -> bool {
    |e: EventEntry<E, T>| e.spec_id() == id
}

/// The deliveries of events whose parent is the event with id `id`.
pub open spec fn parent_is<E, T>(id: EventId) -> spec_fn(EventEntry<E, T>) -> bool {
    |e: EventEntry<E, T>| e.spec_parent_id() == Some(id)
}

/// The key by which deliveries of one event are recognised.
pub open spec fn id_key<E, T>() -> spec_fn(EventEntry<E, T>) -> EventId {
    |e: EventEntry<E, T>| e.spec_id()
}

/// The name of the sender of a delivery.
pub open spec fn sender_key<E, T>() -> spec_fn(EventEntry<E, T>) -> Seq<char> {
    |e: EventEntry<E, T>| e.spec_sender()@
}

/// The name of the receiver of a delivery.
pub open spec fn receiver_key<E, T>() -> spec_fn(EventEntry<E, T>) -> Seq<char> {
    |e: EventEntry<E, T>| e.spec_receiver()@
}

/// The distinct senders of `s`, in order of first appearance.
pub open spec fn distinct_senders<E, T>(s: Seq<EventEntry<E, T>>) -> Seq<ActorId> {
    firsts(s, sender_key()).map_values(|e: EventEntry<E, T>| e.spec_sender())
}

/// The distinct receivers of `s`, in order of first appearance.
pub open spec fn distinct_receivers<E, T>(s: Seq<EventEntry<E, T>>) -> Seq<ActorId> {
    firsts(s, receiver_key()).map_values(|e: EventEntry<E, T>| e.spec_receiver())
}

/// Some delivery of `s` went to the actor named `name`.
pub open spec fn delivered_to<E, T>(s: Seq<EventEntry<E, T>>, name: Seq<char>) -> bool {
    exists|i: int| 0 <= i < s.len() && s[i].spec_receiver()@ == name
}

/// Some delivery of `s` came from the actor named `name`.
pub open spec fn sent_from<E, T>(s: Seq<EventEntry<E, T>>, name: Seq<char>) -> bool {
    exists|i: int| 0 <= i < s.len() && s[i].spec_sender()@ == name
}

/// `collect` keeps the first delivery of each event: the result is the
/// deliveries at the positions where an event id first occurs, in the order of
/// the query, with pairwise different ids, and every id of the query among them.
pub proof fn law_collect_first_of_each_in_order<E, T>(s: Seq<EventEntry<E, T>>)
    ensures
        firsts(s, id_key()) == crate::seqs::keep(s, crate::seqs::first_mask(s, id_key())),
        forall|a: int, b: int|
            0 <= a < b < firsts(s, id_key()).len() ==> (#[trigger] firsts(s, id_key())[a]).spec_id() != (
            #[trigger] firsts(s, id_key())[b]).spec_id(),
        forall|x: EventId| #[trigger] has_key(firsts(s, id_key()), id_key(), x) == has_key(s, id_key(), x),
{
    crate::seqs::lemma_firsts_is_kept_in_order(s, id_key());
    lemma_firsts_keys(s, id_key());
}

/// Two filters of the deliveries (such as `sent_by` and `received_by`) keep,
/// in either order, exactly the deliveries that pass both, in order.
pub proof fn law_filters_commute<E, T>(s: Seq<EventEntry<E, T>>, f: spec_fn(EventEntry<E, T>) -> bool, g: spec_fn(EventEntry<E, T>) -> bool)
    ensures
        s.filter(f).filter(g) == s.filter(g).filter(f),
        s.filter(f).filter(g) == s.filter(|e: EventEntry<E, T>| f(e) && g(e)),
{
    crate::seqs::lemma_filters_commute(s, f, g);
}

/// Two `matching` (or other selecting) calls whose tests answer by `f` and by
/// `g` keep, in either order, exactly the deliveries that pass both, in order.
pub proof fn law_selections_commute<E, T, P: EntryPredicate<E, T>, Q: EntryPredicate<E, T>>(
    p: P,
    q: Q,
    f: spec_fn(EventEntry<E, T>) -> bool,
    g: spec_fn(EventEntry<E, T>) -> bool,
    s: Seq<EventEntry<E, T>>,
    pq1: Seq<EventEntry<E, T>>,
    pq2: Seq<EventEntry<E, T>>,
    qp1: Seq<EventEntry<E, T>>,
    qp2: Seq<EventEntry<E, T>>,
)
    requires
        forall|e: EventEntry<E, T>, b: bool| #[trigger] p.answers(e, b) ==> b == f(e),
        forall|e: EventEntry<E, T>, b: bool| #[trigger] q.answers(e, b) ==> b == g(e),
        selection(p, s, pq1),
        selection(q, pq1, pq2),
        selection(q, s, qp1),
        selection(p, qp1, qp2),
    ensures
        pq2 == qp2,
        pq2 == s.filter(|e: EventEntry<E, T>| f(e) && g(e)),
        pq2.len() <= s.len(),
{
    lemma_selection_is_filter(p, s, pq1, f);
    lemma_selection_is_filter(q, pq1, pq2, g);
    lemma_selection_is_filter(q, s, qp1, g);
    lemma_selection_is_filter(p, qp1, qp2, f);
    crate::seqs::lemma_filters_commute(s, f, g);
    s.lemma_filter_len(|e: EventEntry<E, T>| f(e) && g(e));
}

/// A test that gives exactly one answer, `f(e)`, is a filter by `f`.
pub proof fn lemma_selection_is_filter<E, T, P: EntryPredicate<E, T>>(
    p: P,
    s: Seq<EventEntry<E, T>>,
    r: Seq<EventEntry<E, T>>,
    f: spec_fn(EventEntry<E, T>) -> bool,
)
    requires
        selection(p, s, r),
        forall|e: EventEntry<E, T>, b: bool| #[trigger] p.answers(e, b) ==> b == f(e),
    ensures
        r == s.filter(f),
{
    let mask = choose|mask: Seq<bool>|
        {
            &&& mask.len() == s.len()
            &&& forall|i: int| 0 <= i < s.len() ==> p.answers(s[i], mask[i])
            &&& #[trigger] keep(s, mask) == r
        };
    assert forall|i: int| 0 <= i < s.len() implies mask[i] == f(s[i]) by {
        assert(p.answers(s[i], mask[i]));
    }
    lemma_keep_is_filter(s, mask, f);
}

/// Applies `p` to each element of `entries` and keeps those it accepts.
fn select<E, T, P: EntryPredicate<E, T>>(entries: &Vec<EventEntry<E, T>>, p: &P) -> (r: Vec<EventEntry<E, T>>)
    requires
        callable_on(*p, entries@),
    ensures
        selection(*p, entries@, r@),
{
    let mut r: Vec<EventEntry<E, T>> = Vec::new();
    let ghost mut mask: Seq<bool> = Seq::empty();
    let n = entries.len();
    for i in 0..n
        invariant
            n == entries@.len(),
            callable_on(*p, entries@),
            mask.len() == i,
            forall|j: int| 0 <= j < i ==> p.answers(entries@[j], mask[j]),
            r@ == keep(entries@.take(i as int), mask),
    {
        let b = p.test(&entries[i]);
        let ghost full = mask.push(b);
        proof {
            assert(full.take(i as int) =~= mask);
            assert(entries@.take(i as int + 1).take(i as int) =~= entries@.take(i as int));
            lemma_keep_step(entries@.take(i as int + 1), full, i as int);
            assert(entries@.take(i as int + 1) =~= entries@.take(i as int + 1).take(i as int + 1));
            assert(full.take(i as int + 1) =~= full);
        }
        if b {
            r.push(entries[i].clone());
        }
        proof {
            mask = full;
        }
    }
    proof {
        assert(entries@.take(n as int) =~= entries@);
    }
    r
}

/// A composable, read-only query over recorded deliveries.
///
/// Filters narrow the deliveries in view; terminal operations count, fetch or
/// summarise them. Deliveries keep the order in which they were recorded.
pub struct EventQuery<E, T> {
    entries: Vec<EventEntry<E, T>>,
}

impl<E, T> View for EventQuery<E, T> {
    type V = Seq<EventEntry<E, T>>;

    closed spec fn view(&self) -> Seq<EventEntry<E, T>> {
        self.entries@
    }
}

/// Copies a sequence of deliveries.
pub(crate) fn copy_entries<E, T>(entries: &Vec<EventEntry<E, T>>) -> (r: Vec<EventEntry<E, T>>)
    ensures
        r@ == entries@,
{
    let mut r: Vec<EventEntry<E, T>> = Vec::new();
    let n = entries.len();
    for i in 0..n
        invariant
            n == entries@.len(),
            r@ == entries@.take(i as int),
    {
        r.push(entries[i].clone());
        proof {
            assert(entries@.take(i as int + 1) =~= entries@.take(i as int).push(entries@[i as int]));
        }
    }
    proof {
        assert(entries@.take(n as int) =~= entries@);
    }
    r
}

impl<E, T> Clone for EventQuery<E, T> {
    fn clone(&self) -> (r: EventQuery<E, T>)
        ensures
            r@ == self@,
    {
        EventQuery { entries: copy_entries(&self.entries) }
    }
}

/// Keeps deliveries sent by an actor.
pub struct SentBy(pub ActorId);

impl<E, T> EntryPredicate<E, T> for SentBy {
    open spec fn callable(&self, entry: EventEntry<E, T>) -> bool {
        true
    }

    open spec fn answers(&self, entry: EventEntry<E, T>, r: bool) -> bool {
        r == (entry.spec_sender()@ == self.0@)
    }

    fn test(&self, entry: &EventEntry<E, T>) -> (r: bool) {
        entry.sender_actor_eq(&self.0)
    }
}

/// Keeps deliveries received by an actor.
pub struct ReceivedBy(pub ActorId);

impl<E, T> EntryPredicate<E, T> for ReceivedBy {
    open spec fn callable(&self, entry: EventEntry<E, T>) -> bool {
        true
    }

    open spec fn answers(&self, entry: EventEntry<E, T>, r: bool) -> bool {
        r == (entry.spec_receiver()@ == self.0@)
    }

    fn test(&self, entry: &EventEntry<E, T>) -> (r: bool) {
        entry.receiver_actor_eq(&self.0)
    }
}

/// Keeps deliveries routed under a topic.
pub struct WithTopic<T>(pub T);

impl<E, T: PartialEq> EntryPredicate<E, T> for WithTopic<T> {
    open spec fn callable(&self, entry: EventEntry<E, T>) -> bool {
        true
    }

    open spec fn answers(&self, entry: EventEntry<E, T>, r: bool) -> bool {
        T::obeys_eq_spec() ==> r == entry.spec_topic().eq_spec(&self.0)
    }

    fn test(&self, entry: &EventEntry<E, T>) -> (r: bool) {
        *entry.topic() == self.0
    }
}

/// Keeps deliveries of events created after a time.
pub struct NewerThan(pub u64);

impl<E, T> EntryPredicate<E, T> for NewerThan {
    open spec fn callable(&self, entry: EventEntry<E, T>) -> bool {
        true
    }

    open spec fn answers(&self, entry: EventEntry<E, T>, r: bool) -> bool {
        r == (entry.spec_timestamp() > self.0)
    }

    fn test(&self, entry: &EventEntry<E, T>) -> (r: bool) {
        entry.meta().timestamp() > self.0
    }
}

/// Keeps deliveries of events created before a time.
pub struct OlderThan(pub u64);

impl<E, T> EntryPredicate<E, T> for OlderThan {
    open spec fn callable(&self, entry: EventEntry<E, T>) -> bool {
        true
    }

    open spec fn answers(&self, entry: EventEntry<E, T>, r: bool) -> bool {
        r == (entry.spec_timestamp() < self.0)
    }

    fn test(&self, entry: &EventEntry<E, T>) -> (r: bool) {
        entry.meta().timestamp() < self.0
    }
}

/// Keeps deliveries of the children of an event.
pub struct ChildOf(pub EventId);

impl<E, T> EntryPredicate<E, T> for ChildOf {
    open spec fn callable(&self, entry: EventEntry<E, T>) -> bool {
        true
    }

    open spec fn answers(&self, entry: EventEntry<E, T>, r: bool) -> bool {
        r == (entry.spec_parent_id() == Some(self.0))
    }

    fn test(&self, entry: &EventEntry<E, T>) -> (r: bool) {
        match entry.meta().parent_id() {
            Some(p) => p == self.0,
            None => false,
        }
    }
}

impl<E, T> EventQuery<E, T> {
    /// A query over the given deliveries.
    pub(crate) fn of(entries: Vec<EventEntry<E, T>>) -> (r: EventQuery<E, T>)
        ensures
            r@ == entries@,
    {
        EventQuery { entries }
    }

    /// A query over all of `events`.
    pub fn new(events: EventRecords<E, T>) -> (r: EventQuery<E, T>)
        ensures
            r@ == (*events)@,
    {
        EventQuery { entries: copy_entries(&*events) }
    }

    // ==================== Terminal operations ====================

    /// The number of deliveries in view.
    pub fn count(&self) -> (r: usize)
        ensures
            r == self@.len(),
    {
        self.entries.len()
    }

    /// Whether no delivery is in view.
    pub fn is_empty(&self) -> (r: bool)
        ensures
            r == (self@.len() == 0),
    {
        self.entries.len() == 0
    }

    /// Whether some delivery is in view.
    pub fn exists_any(&self) -> (r: bool)
        ensures
            r == (self@.len() > 0),
    {
        !self.is_empty()
    }

    /// The first delivery in view.
    pub fn first(&self) -> (r: Option<EventEntry<E, T>>)
        ensures
            r == (if self@.len() > 0 { Some(self@[0]) } else { None }),
    {
        if self.entries.len() > 0 {
            Some(self.entries[0].clone())
        } else {
            None
        }
    }

    /// The last delivery in view.
    pub fn last(&self) -> (r: Option<EventEntry<E, T>>)
        ensures
            r == (if self@.len() > 0 { Some(self@.last()) } else { None }),
    {
        let n = self.entries.len();
        if n > 0 {
            Some(self.entries[n - 1].clone())
        } else {
            None
        }
    }

    /// The delivery at position `index` (from 0) among those in view.
    pub fn nth(&self, index: usize) -> (r: Option<EventEntry<E, T>>)
        ensures
            r == (if index < self@.len() { Some(self@[index as int]) } else { None }),
    {
        if index < self.entries.len() {
            Some(self.entries[index].clone())
        } else {
            None
        }
    }

    /// One delivery per distinct event, the first recorded for it, in order.
    pub fn collect(&self) -> (r: Vec<EventEntry<E, T>>)
        ensures
            r@ == firsts(self@, id_key()),
    {
        let s = &self.entries;
        let ghost key = id_key::<E, T>();
        let mut r: Vec<EventEntry<E, T>> = Vec::new();
        let n = s.len();
        for i in 0..n
            invariant
                n == s@.len(),
                key == id_key::<E, T>(),
                r@ == firsts(s@.take(i as int), key),
        {
            let id = s[i].id();
            let mut found = false;
            let m = r.len();
            for j in 0..m
                invariant
                    m == r@.len(),
                    id == key(s@[i as int]),
                    key == id_key::<E, T>(),
                    found == (exists|k: int| 0 <= k < j && key(r@[k]) == id),
            {
                if r[j].id() == id {
                    found = true;
                }
            }
            proof {
                lemma_firsts_keys(s@.take(i as int), key);
                lemma_firsts_step(s@, key, i as int);
                assert(found == has_key(r@, key, id));
                assert(has_key(s@.take(i as int), key, id) == (exists|k: int| 0 <= k < i && key(s@[k]) == key(s@[i as int]))) by {
                    if has_key(s@.take(i as int), key, id) {
                        let k = choose|k: int| 0 <= k < s@.take(i as int).len() && key(s@.take(i as int)[k]) == id;
                        assert(key(s@[k]) == key(s@[i as int]));
                    }
                    if exists|k: int| 0 <= k < i && key(s@[k]) == key(s@[i as int]) {
                        let k = choose|k: int| 0 <= k < i && key(s@[k]) == key(s@[i as int]);
                        assert(key(s@.take(i as int)[k]) == id);
                    }
                }
            }
            if !found {
                r.push(s[i].clone());
            }
        }
        proof {
            assert(s@.take(n as int) =~= s@);
        }
        r
    }

    /// Every delivery in view, including several deliveries of one event.
    pub fn all_deliveries(&self) -> (r: Vec<EventEntry<E, T>>)
        ensures
            r@ == self@,
    {
        copy_entries(&self.entries)
    }

    /// The distinct senders of the deliveries in view, in order of first appearance.
    pub fn senders(&self) -> (r: Vec<ActorId>)
        ensures
            r@ == distinct_senders(self@),
    {
        let s = &self.entries;
        let ghost key = sender_key::<E, T>();
        let ghost proj = |e: EventEntry<E, T>| e.spec_sender();
        let mut r: Vec<ActorId> = Vec::new();
        let n = s.len();
        for i in 0..n
            invariant
                n == s@.len(),
                key == sender_key::<E, T>(),
                proj == (|e: EventEntry<E, T>| e.spec_sender()),
                r@ == firsts(s@.take(i as int), key).map_values(proj),
        {
            let sender = s[i].sender();
            let mut found = false;
            let m = r.len();
            for j in 0..m
                invariant
                    m == r@.len(),
                    sender@ == key(s@[i as int]),
                    found == (exists|k: int| 0 <= k < j && r@[k]@ == sender@),
            {
                if r[j] == *sender {
                    found = true;
                }
            }
            proof {
                let f = firsts(s@.take(i as int), key);
                lemma_firsts_keys(s@.take(i as int), key);
                lemma_firsts_step(s@, key, i as int);
                assert(found == has_key(f, key, sender@)) by {
                    if found {
                        let k = choose|k: int| 0 <= k < m && r@[k]@ == sender@;
                        assert(key(f[k]) == sender@);
                    }
                    if has_key(f, key, sender@) {
                        let k = choose|k: int| 0 <= k < f.len() && key(f[k]) == sender@;
                        assert(r@[k]@ == sender@);
                    }
                }
                assert(has_key(s@.take(i as int), key, sender@) == (exists|k: int| 0 <= k < i && key(s@[k]) == key(s@[i as int]))) by {
                    if has_key(s@.take(i as int), key, sender@) {
                        let k = choose|k: int| 0 <= k < s@.take(i as int).len() && key(s@.take(i as int)[k]) == sender@;
                        assert(key(s@[k]) == key(s@[i as int]));
                    }
                    if exists|k: int| 0 <= k < i && key(s@[k]) == key(s@[i as int]) {
                        let k = choose|k: int| 0 <= k < i && key(s@[k]) == key(s@[i as int]);
                        assert(key(s@.take(i as int)[k]) == sender@);
                    }
                }
            }
            if !found {
                r.push(sender.clone());
                proof {
                    assert(firsts(s@.take(i as int), key).push(s@[i as int]).map_values(proj)
                        =~= firsts(s@.take(i as int), key).map_values(proj).push(proj(s@[i as int])));
                }
            }
        }
        proof {
            assert(s@.take(n as int) =~= s@);
        }
        r
    }

    /// The distinct receivers of the deliveries in view, in order of first appearance.
    pub fn receivers(&self) -> (r: Vec<ActorId>)
        ensures
            r@ == distinct_receivers(self@),
    {
        let s = &self.entries;
        let ghost key = receiver_key::<E, T>();
        let ghost proj = |e: EventEntry<E, T>| e.spec_receiver();
        let mut r: Vec<ActorId> = Vec::new();
        let n = s.len();
        for i in 0..n
            invariant
                n == s@.len(),
                key == receiver_key::<E, T>(),
                proj == (|e: EventEntry<E, T>| e.spec_receiver()),
                r@ == firsts(s@.take(i as int), key).map_values(proj),
        {
            let receiver = s[i].receiver();
            let mut found = false;
            let m = r.len();
            for j in 0..m
                invariant
                    m == r@.len(),
                    receiver@ == key(s@[i as int]),
                    found == (exists|k: int| 0 <= k < j && r@[k]@ == receiver@),
            {
                if r[j] == *receiver {
                    found = true;
                }
            }
            proof {
                let f = firsts(s@.take(i as int), key);
                lemma_firsts_keys(s@.take(i as int), key);
                lemma_firsts_step(s@, key, i as int);
                assert(found == has_key(f, key, receiver@)) by {
                    if found {
                        let k = choose|k: int| 0 <= k < m && r@[k]@ == receiver@;
                        assert(key(f[k]) == receiver@);
                    }
                    if has_key(f, key, receiver@) {
                        let k = choose|k: int| 0 <= k < f.len() && key(f[k]) == receiver@;
                        assert(r@[k]@ == receiver@);
                    }
                }
                assert(has_key(s@.take(i as int), key, receiver@) == (exists|k: int| 0 <= k < i && key(s@[k]) == key(s@[i as int]))) by {
                    if has_key(s@.take(i as int), key, receiver@) {
                        let k = choose|k: int| 0 <= k < s@.take(i as int).len() && key(s@.take(i as int)[k]) == receiver@;
                        assert(key(s@[k]) == key(s@[i as int]));
                    }
                    if exists|k: int| 0 <= k < i && key(s@[k]) == key(s@[i as int]) {
                        let k = choose|k: int| 0 <= k < i && key(s@[k]) == key(s@[i as int]);
                        assert(key(s@.take(i as int)[k]) == receiver@);
                    }
                }
            }
            if !found {
                r.push(receiver.clone());
                proof {
                    assert(firsts(s@.take(i as int), key).push(s@[i as int]).map_values(proj)
                        =~= firsts(s@.take(i as int), key).map_values(proj).push(proj(s@[i as int])));
                }
            }
        }
        proof {
            assert(s@.take(n as int) =~= s@);
        }
        r
    }

    /// The number of distinct senders of the deliveries in view.
    pub fn sender_count(&self) -> (r: usize)
        ensures
            r == distinct_senders(self@).len(),
    {
        self.senders().len()
    }

    /// The number of distinct receivers of the deliveries in view.
    pub fn receiver_count(&self) -> (r: usize)
        ensures
            r == distinct_receivers(self@).len(),
    {
        self.receivers().len()
    }
}

impl<E, T> EventQuery<E, T> {
    /// Whether every delivery in view satisfies `predicate`. `true` is only
    /// answered when the predicate may answer `true` for each of them, `false`
    /// only when it may answer `false` for one.
    pub fn all<F: Fn(&EventEntry<E, T>) -> bool>(&self, predicate: F) -> (r: bool)
        requires
            forall|i: int| 0 <= i < self@.len() ==> call_requires(predicate, (&self@[i],)),
        ensures
            r ==> forall|i: int| 0 <= i < self@.len() ==> call_ensures(predicate, (&self@[i],), true),
            !r ==> exists|i: int| 0 <= i < self@.len() && call_ensures(predicate, (&self@[i],), false),
    {
        let n = self.entries.len();
        for i in 0..n
            invariant
                n == self@.len(),
                forall|k: int| 0 <= k < self@.len() ==> call_requires(predicate, (&self@[k],)),
                forall|k: int| 0 <= k < i ==> call_ensures(predicate, (&self@[k],), true),
        {
            if !predicate(&self.entries[i]) {
                return false;
            }
        }
        true
    }

    /// Whether some delivery in view satisfies `predicate`. `true` is only
    /// answered when the predicate may answer `true` for one of them, `false`
    /// only when it may answer `false` for each.
    pub fn any<F: Fn(&EventEntry<E, T>) -> bool>(&self, predicate: F) -> (r: bool)
        requires
            forall|i: int| 0 <= i < self@.len() ==> call_requires(predicate, (&self@[i],)),
        ensures
            r ==> exists|i: int| 0 <= i < self@.len() && call_ensures(predicate, (&self@[i],), true),
            !r ==> forall|i: int| 0 <= i < self@.len() ==> call_ensures(predicate, (&self@[i],), false),
    {
        let n = self.entries.len();
        for i in 0..n
            invariant
                n == self@.len(),
                forall|k: int| 0 <= k < self@.len() ==> call_requires(predicate, (&self@[k],)),
                forall|k: int| 0 <= k < i ==> call_ensures(predicate, (&self@[k],), false),
        {
            if predicate(&self.entries[i]) {
                return true;
            }
        }
        false
    }

    /// Whether some delivery in view is matched by `matcher` (a matcher, a
    /// label, or an event id). `true` is only answered when the matcher may
    /// match one of them, `false` only when it may fail to match each.
    pub fn has_event<M: IntoMatcher<E, T>>(&self, matcher: M) -> (r: bool)
        requires
            callable_on(matcher.spec_pred(), self@),
        ensures
            r ==> exists|i: int| 0 <= i < self@.len() && matcher.spec_pred().answers(self@[i], true),
            !r ==> forall|i: int| 0 <= i < self@.len() ==> matcher.spec_pred().answers(self@[i], false),
    {
        let m = matcher.into_matcher();
        let n = self.entries.len();
        for i in 0..n
            invariant
                n == self@.len(),
                m.predicate() == matcher.spec_pred(),
                callable_on(matcher.spec_pred(), self@),
                forall|k: int| 0 <= k < i ==> matcher.spec_pred().answers(self@[k], false),
        {
            if m.matches(&self.entries[i]) {
                return true;
            }
        }
        false
    }

    /// Whether some delivery in view was sent by `actor_id`.
    pub fn has_sender(&self, actor_id: &ActorId) -> (r: bool)
        ensures
            r == sent_from(self@, actor_id@),
    {
        let n = self.entries.len();
        for i in 0..n
            invariant
                n == self@.len(),
                forall|k: int| 0 <= k < i ==> self@[k].spec_sender()@ != actor_id@,
        {
            if self.entries[i].sender_actor_eq(actor_id) {
                return true;
            }
        }
        false
    }

    /// Whether some delivery in view was received by `actor_id`.
    pub fn has_receiver(&self, actor_id: &ActorId) -> (r: bool)
        ensures
            r == delivered_to(self@, actor_id@),
    {
        let n = self.entries.len();
        for i in 0..n
            invariant
                n == self@.len(),
                forall|k: int| 0 <= k < i ==> self@[k].spec_receiver()@ != actor_id@,
        {
            if self.entries[i].receiver_actor_eq(actor_id) {
                return true;
            }
        }
        false
    }

    /// Whether some delivery in view satisfies `predicate` (as [`any`](Self::any)).
    pub fn has<F: Fn(&EventEntry<E, T>) -> bool>(&self, predicate: F) -> (r: bool)
        requires
            forall|i: int| 0 <= i < self@.len() ==> call_requires(predicate, (&self@[i],)),
        ensures
            r ==> exists|i: int| 0 <= i < self@.len() && call_ensures(predicate, (&self@[i],), true),
            !r ==> forall|i: int| 0 <= i < self@.len() ==> call_ensures(predicate, (&self@[i],), false),
    {
        self.any(predicate)
    }

    // ==================== Filters ====================

    /// Keeps the deliveries sent by `actor_id`.
    pub fn sent_by(self, actor_id: &ActorId) -> (r: EventQuery<E, T>)
        ensures
            r@ == self@.filter(|e: EventEntry<E, T>| e.spec_sender()@ == actor_id@),
    {
        let p = SentBy(actor_id.clone());
        let entries = select(&self.entries, &p);
        proof {
            lemma_selection_is_filter(p, self@, entries@, |e: EventEntry<E, T>| e.spec_sender()@ == actor_id@);
        }
        EventQuery { entries }
    }

    /// Keeps the deliveries received by `actor_id`.
    pub fn received_by(self, actor_id: &ActorId) -> (r: EventQuery<E, T>)
        ensures
            r@ == self@.filter(|e: EventEntry<E, T>| e.spec_receiver()@ == actor_id@),
    {
        let p = ReceivedBy(actor_id.clone());
        let entries = select(&self.entries, &p);
        proof {
            lemma_selection_is_filter(p, self@, entries@, |e: EventEntry<E, T>| e.spec_receiver()@ == actor_id@);
        }
        EventQuery { entries }
    }

    /// Keeps the deliveries routed under `topic` (by the topic type's `==`).
    pub fn with_topic(self, topic: T) -> (r: EventQuery<E, T>)
        where T: PartialEq,
        ensures
            selection(WithTopic(topic), self@, r@),
            T::obeys_eq_spec() ==> r@ == self@.filter(|e: EventEntry<E, T>| e.spec_topic().eq_spec(&topic)),
    {
        let ghost t = topic;
        let p = WithTopic(topic);
        let entries = select(&self.entries, &p);
        proof {
            if T::obeys_eq_spec() {
                lemma_selection_is_filter(p, self@, entries@, |e: EventEntry<E, T>| e.spec_topic().eq_spec(&t));
            }
        }
        EventQuery { entries }
    }

    /// Keeps the deliveries of the event with id `id`.
    pub fn with_id(self, id: EventId) -> (r: EventQuery<E, T>)
        ensures
            r@ == self@.filter(id_is(id)),
    {
        let p = ById(id);
        let entries = select(&self.entries, &p);
        proof {
            lemma_selection_is_filter(p, self@, entries@, id_is(id));
        }
        EventQuery { entries }
    }

    /// Keeps the deliveries `predicate` accepts.
    pub fn matching<F: Fn(&EventEntry<E, T>) -> bool>(self, predicate: F) -> (r: EventQuery<E, T>)
        requires
            forall|i: int| 0 <= i < self@.len() ==> call_requires(predicate, (&self@[i],)),
        ensures
            selection(ByEntry(predicate), self@, r@),
    {
        let p = ByEntry(predicate);
        assert(callable_on(p, self@)) by {
            assert forall|i: int| 0 <= i < self@.len() implies p.callable(self@[i]) by {
                assert(call_requires(predicate, (&self@[i],)));
            }
        }
        let entries = select(&self.entries, &p);
        EventQuery { entries }
    }

    /// Keeps the deliveries whose payload `predicate` accepts.
    pub fn matching_event<F: Fn(&E) -> bool>(self, predicate: F) -> (r: EventQuery<E, T>)
        requires
            forall|i: int| 0 <= i < self@.len() ==> call_requires(predicate, (&self@[i].spec_payload(),)),
        ensures
            selection(ByEvent(predicate), self@, r@),
    {
        let p = ByEvent(predicate);
        assert(callable_on(p, self@)) by {
            assert forall|i: int| 0 <= i < self@.len() implies p.callable(self@[i]) by {
                assert(call_requires(predicate, (&self@[i].spec_payload(),)));
            }
        }
        let entries = select(&self.entries, &p);
        EventQuery { entries }
    }

    /// Keeps the deliveries of events created after `event` (by timestamp).
    pub fn after(self, event: &EventEntry<E, T>) -> (r: EventQuery<E, T>)
        ensures
            r@ == self@.filter(|e: EventEntry<E, T>| e.spec_timestamp() > event.spec_timestamp()),
    {
        let t = event.meta().timestamp();
        let p = NewerThan(t);
        let entries = select(&self.entries, &p);
        proof {
            lemma_selection_is_filter(p, self@, entries@, |e: EventEntry<E, T>| e.spec_timestamp() > t);
        }
        EventQuery { entries }
    }

    /// Keeps the deliveries of events created before `event` (by timestamp).
    pub fn before(self, event: &EventEntry<E, T>) -> (r: EventQuery<E, T>)
        ensures
            r@ == self@.filter(|e: EventEntry<E, T>| e.spec_timestamp() < event.spec_timestamp()),
    {
        let t = event.meta().timestamp();
        let p = OlderThan(t);
        let entries = select(&self.entries, &p);
        proof {
            lemma_selection_is_filter(p, self@, entries@, |e: EventEntry<E, T>| e.spec_timestamp() < t);
        }
        EventQuery { entries }
    }

    /// Keeps the deliveries of children of the event with id `id`.
    pub fn children_of(self, id: EventId) -> (r: EventQuery<E, T>)
        ensures
            r@ == self@.filter(parent_is(id)),
    {
        let p = ChildOf(id);
        let entries = select(&self.entries, &p);
        proof {
            lemma_selection_is_filter(p, self@, entries@, parent_is(id));
        }
        EventQuery { entries }
    }
}

/// The label of a delivered event.
pub open spec fn label_key<E: Label, T>() -> spec_fn(EventEntry<E, T>) -> Seq<char> {
    |e: EventEntry<E, T>| e.spec_payload().spec_label()
}

/// The identity on texts, as the key by which repeated labels are recognised.
pub open spec fn text_key() -> spec_fn(Seq<char>) -> Seq<char> {
    |x: Seq<char>| x
}

/// How often `l` occurs among `ls`.
pub open spec fn text_count(ls: Seq<Seq<char>>, l: Seq<char>) -> nat {
    ls.filter(|x: Seq<char>| x == l).len()
}

/// The number of deliveries in `s` whose event is labelled `l`.
pub open spec fn label_count<E: Label, T>(s: Seq<EventEntry<E, T>>, l: Seq<char>) -> nat {
    s.filter(|x: EventEntry<E, T>| x.spec_payload().spec_label() == l).len()
}

/// No element satisfies the predicate, so the filter is empty.
proof fn lemma_filter_none<A>(s: Seq<A>, f: spec_fn(A) -> bool)
    requires
        forall|i: int| 0 <= i < s.len() ==> !f(s[i]),
    ensures
        s.filter(f).len() == 0,
    decreases s.len(),
{
    reveal_with_fuel(Seq::<_>::filter, 1);
    if s.len() > 0 {
        lemma_filter_none(s.drop_last(), f);
        assert(!f(s.last()));
    }
}


/// The map holding each key of `pairs` with its last count.
pub open spec fn pairs_map(pairs: Seq<(String, usize)>) -> Map<String, usize>
    decreases pairs.len(),
{
    if pairs.len() == 0 {
        Map::empty()
    } else {
        pairs_map(pairs.drop_last()).insert(pairs.last().0, pairs.last().1)
    }
}

/// With distinct keys, the map holds exactly the keys of `pairs`, each with its
/// count.
proof fn lemma_pairs_map(pairs: Seq<(String, usize)>)
    requires
        forall|a: int, b: int| 0 <= a < b < pairs.len() ==> (#[trigger] pairs[a]).0@ != (#[trigger] pairs[b]).0@,
    ensures
        forall|k: int| 0 <= k < pairs.len() ==> #[trigger] pairs_map(pairs).contains_key(pairs[k].0)
            && pairs_map(pairs)[pairs[k].0] == pairs[k].1,
        forall|key: String| #[trigger] pairs_map(pairs).contains_key(key) ==> exists|k: int| 0 <= k < pairs.len() && pairs[k].0 == key,
    decreases pairs.len(),
{
    if pairs.len() > 0 {
        let p = pairs.drop_last();
        assert forall|a: int, b: int| 0 <= a < b < p.len() implies (#[trigger] p[a]).0@ != (#[trigger] p[b]).0@ by {
            assert(pairs[a] == p[a]);
            assert(pairs[b] == p[b]);
        }
        lemma_pairs_map(p);
        let last = pairs.last();
        assert(pairs_map(pairs) == pairs_map(p).insert(last.0, last.1));
        assert forall|k: int| 0 <= k < pairs.len() implies #[trigger] pairs_map(pairs).contains_key(pairs[k].0)
            && pairs_map(pairs)[pairs[k].0] == pairs[k].1 by {
            if k < pairs.len() - 1 {
                assert(pairs[k] == p[k]);
                assert(pairs[k].0@ != pairs[pairs.len() - 1].0@);
                assert(pairs_map(p).contains_key(p[k].0));
            }
        }
        assert forall|key: String| #[trigger] pairs_map(pairs).contains_key(key) implies exists|k: int| 0 <= k < pairs.len() && pairs[k].0 == key by {
            if key == last.0 {
                assert(pairs[pairs.len() - 1].0 == key);
            } else {
                assert(pairs_map(p).contains_key(key));
                let k = choose|k: int| 0 <= k < p.len() && p[k].0 == key;
                assert(pairs[k].0 == key);
            }
        }
    }
}

impl<E: Label, T> EventQuery<E, T> {
    /// The distinct labels of the events in view, in order of first appearance,
    /// each with the number of deliveries that carry it.
    pub fn label_counts(&self) -> (r: Vec<(String, usize)>)
        ensures
            forall|a: int, b: int| 0 <= a < b < r@.len() ==> (#[trigger] r@[a]).0@ != (#[trigger] r@[b]).0@,
            exists|ls: Seq<Seq<char>>| #![trigger firsts(ls, text_key())]
                {
                    &&& ls.len() == self@.len()
                    &&& r@.len() == firsts(ls, text_key()).len()
                    &&& forall|k: int| 0 <= k < r@.len() ==> {
                        &&& (#[trigger] r@[k]).0@ == firsts(ls, text_key())[k]
                        &&& r@[k].1 == text_count(ls, r@[k].0@)
                    }
                    &&& E::obeys_label_spec() ==> ls == self@.map_values(|e: EventEntry<E, T>| e.spec_payload().spec_label())
                },
            E::obeys_label_spec() ==> r@.len() == firsts(self@, label_key()).len(),
            E::obeys_label_spec() ==> forall|k: int| 0 <= k < r@.len() ==> {
                &&& (#[trigger] r@[k]).0@ == label_key()(firsts(self@, label_key())[k])
                &&& r@[k].1 == label_count(self@, r@[k].0@)
            },
    {
        let s = &self.entries;
        let ghost key = label_key::<E, T>();
        let mut r: Vec<(String, usize)> = Vec::new();
        let ghost mut ls: Seq<Seq<char>> = Seq::empty();
        let n = s.len();
        proof {
            assert(s@.take(0).map_values(|e: EventEntry<E, T>| e.spec_payload().spec_label()) =~= ls);
        }
        for i in 0..n
            invariant
                n == s@.len(),
                key == label_key::<E, T>(),
                ls.len() == i,
                r@.len() == firsts(ls, text_key()).len(),
                forall|k: int| 0 <= k < r@.len() ==> {
                    &&& (#[trigger] r@[k]).0@ == firsts(ls, text_key())[k]
                    &&& r@[k].1 == text_count(ls, r@[k].0@)
                },
                E::obeys_label_spec() ==> ls == s@.take(i as int).map_values(|e: EventEntry<E, T>| e.spec_payload().spec_label()),
                forall|k: int| 0 <= k < r@.len() ==> (#[trigger] r@[k]).1 <= i,
                forall|a: int, b: int| 0 <= a < b < r@.len() ==> (#[trigger] r@[a]).0@ != (#[trigger] r@[b]).0@,
                E::obeys_label_spec() ==> r@.len() == firsts(s@.take(i as int), key).len(),
                E::obeys_label_spec() ==> forall|k: int| 0 <= k < r@.len() ==> {
                    &&& (#[trigger] r@[k]).0@ == key(firsts(s@.take(i as int), key)[k])
                    &&& r@[k].1 == label_count(s@.take(i as int), r@[k].0@)
                },
        {
            let ghost t = s@.take(i as int);
            let ghost t1 = s@.take(i as int + 1);
            let ghost f = firsts(t, key);
            let label = label_string(s[i].payload().label());
            let m = r.len();
            let mut found: Option<usize> = None;
            for j in 0..m
                invariant
                    m == r@.len(),
                    match found {
                        Some(x) => x < m && r@[x as int].0@ == label@,
                        None => forall|k: int| 0 <= k < j ==> r@[k].0@ != label@,
                    },
            {
                if found.is_none() && r[j].0 == label {
                    found = Some(j);
                }
            }
            let ghost l1 = ls.push(label@);
            proof {
                let tk = text_key();
                assert(l1.take(i as int + 1) =~= l1);
                assert(l1.take(i as int) =~= ls);
                lemma_firsts_keys(ls, tk);
                lemma_firsts_step(l1, tk, i as int);
                assert forall|l: Seq<char>| #[trigger] text_count(l1, l) == text_count(ls, l) + (if label@ == l { 1int } else { 0int }) by {
                    lemma_filter_step(l1, |x: Seq<char>| x == l, i as int);
                }
                assert(has_key(ls, tk, label@) == (exists|k: int| 0 <= k < i && tk(l1[k]) == tk(l1[i as int]))) by {
                    if has_key(ls, tk, label@) {
                        let k = choose|k: int| 0 <= k < ls.len() && tk(ls[k]) == label@;
                        assert(tk(l1[k]) == tk(l1[i as int]));
                    }
                    if exists|k: int| 0 <= k < i && tk(l1[k]) == tk(l1[i as int]) {
                        let k = choose|k: int| 0 <= k < i && tk(l1[k]) == tk(l1[i as int]);
                        assert(tk(ls[k]) == label@);
                    }
                }
                if E::obeys_label_spec() {
                    assert(s@.take(i as int + 1).map_values(|e: EventEntry<E, T>| e.spec_payload().spec_label()) =~= s@.take(i as int).map_values(|e: EventEntry<E, T>| e.spec_payload().spec_label()).push(s@[i as int].spec_payload().spec_label()));
                }
            }
            proof {
                if E::obeys_label_spec() {
                    lemma_firsts_keys(t, key);
                    lemma_firsts_step(s@, key, i as int);
                    assert forall|l: Seq<char>| #[trigger] label_count(t1, l) == label_count(t, l) + (if key(s@[i as int]) == l { 1int } else { 0int }) by {
                        lemma_filter_step(s@, |x: EventEntry<E, T>| x.spec_payload().spec_label() == l, i as int);
                    }
                    assert(label@ == key(s@[i as int]));
                    assert(has_key(t, key, label@) == (exists|k: int| 0 <= k < i && key(s@[k]) == key(s@[i as int]))) by {
                        if has_key(t, key, label@) {
                            let k = choose|k: int| 0 <= k < t.len() && key(t[k]) == label@;
                            assert(key(s@[k]) == key(s@[i as int]));
                        }
                        if exists|k: int| 0 <= k < i && key(s@[k]) == key(s@[i as int]) {
                            let k = choose|k: int| 0 <= k < i && key(s@[k]) == key(s@[i as int]);
                            assert(key(t[k]) == label@);
                        }
                    }
                }
            }
            match found {
                Some(j) => {
                    proof {
                        let tk = text_key();
                        let fl = firsts(ls, tk);
                        assert(has_key(fl, tk, label@)) by {
                            assert(tk(fl[j as int]) == label@);
                        }
                        assert forall|k: int| 0 <= k < r@.len() && k != j implies r@[k].0@ != label@ by {
                            assert(tk(fl[k]) != tk(fl[j as int]));
                        }
                        if E::obeys_label_spec() {
                            assert(has_key(f, key, label@));
                            assert forall|k: int| 0 <= k < r@.len() && k != j implies r@[k].0@ != label@ by {
                                assert(key(f[k]) != key(f[j as int]));
                            }
                        }
                    }
                    let c = r[j].1;
                    r.set(j, (label, c + 1));
                },
                None => {
                    proof {
                        let tk = text_key();
                        let fl = firsts(ls, tk);
                        assert(!has_key(fl, tk, label@)) by {
                            if has_key(fl, tk, label@) {
                                let k = choose|k: int| 0 <= k < fl.len() && tk(fl[k]) == label@;
                                assert(r@[k].0@ == label@);
                            }
                        }
                        lemma_filter_none(ls, |x: Seq<char>| x == label@);
                        if E::obeys_label_spec() {
                            assert(!has_key(f, key, label@)) by {
                                if has_key(f, key, label@) {
                                    let k = choose|k: int| 0 <= k < f.len() && key(f[k]) == label@;
                                    assert(r@[k].0@ == label@);
                                }
                            }
                            lemma_filter_none(t, |x: EventEntry<E, T>| x.spec_payload().spec_label() == label@);
                        }
                    }
                    r.push((label, 1));
                },
            }
            proof {
                ls = l1;
            }
        }
        proof {
            assert(s@.take(n as int) =~= s@);
            assert(firsts(ls, text_key()) == firsts(ls, text_key()));
        }
        r
    }

    /// The number of deliveries in view for each label.
    ///
    /// When string keys behave as map keys, the keys are exactly the labels of
    /// the events in view, each mapped to the number of deliveries carrying it.
    pub fn count_by_label(&self) -> (r: std::collections::HashMap<String, usize>)
        ensures
            vstd::std_specs::hash::obeys_key_model::<String>() && E::obeys_label_spec() ==> forall|key: String|
                #[trigger] r@.contains_key(key) ==> has_key(self@, label_key(), key@) && r@[key] == label_count(self@, key@),
            vstd::std_specs::hash::obeys_key_model::<String>() && E::obeys_label_spec() ==> forall|j: int|
                0 <= j < self@.len() ==> exists|key: String|
                    #[trigger] r@.contains_key(key) && key@ == (#[trigger] self@[j]).spec_payload().spec_label(),
    {
        let pairs = self.label_counts();
        let ghost f = firsts(self@, label_key());
        proof {
            lemma_firsts_keys(self@, label_key());
            broadcast use vstd::std_specs::hash::axiom_random_state_builds_valid_hashers;
        }
        let mut m: std::collections::HashMap<String, usize> = std::collections::HashMap::new();
        let n = pairs.len();
        for i in 0..n
            invariant
                n == pairs@.len(),
                vstd::std_specs::hash::builds_valid_hashers::<std::collections::hash_map::RandomState>(),
                vstd::std_specs::hash::obeys_key_model::<String>() ==> m@ == pairs_map(pairs@.take(i as int)),
        {
            let l = pairs[i].0.clone();
            let c = pairs[i].1;
            m.insert(l, c);
            proof {
                assert(pairs@.take(i as int + 1).drop_last() =~= pairs@.take(i as int));
            }
        }
        proof {
            assert(pairs@.take(n as int) =~= pairs@);
            if vstd::std_specs::hash::obeys_key_model::<String>() && E::obeys_label_spec() {
                lemma_pairs_map(pairs@);
                assert forall|key: String| #[trigger] m@.contains_key(key) implies has_key(self@, label_key(), key@) && m@[key] == label_count(self@, key@) by {
                    let k = choose|k: int| 0 <= k < pairs@.len() && pairs@[k].0 == key;
                    assert(label_key()(f[k]) == key@);
                    assert(has_key(f, label_key(), key@));
                }
                assert forall|j: int| 0 <= j < self@.len() implies exists|key: String|
                    #[trigger] m@.contains_key(key) && key@ == (#[trigger] self@[j]).spec_payload().spec_label() by {
                    let x = self@[j].spec_payload().spec_label();
                    assert(label_key()(self@[j]) == x);
                    assert(has_key(self@, label_key(), x));
                    assert(has_key(f, label_key(), x));
                    let k = choose|k: int| 0 <= k < f.len() && label_key()(f[k]) == x;
                    assert(m@.contains_key(pairs@[k].0));
                    assert(pairs@[k].0@ == x);
                }
            }
        }
        m
    }

    /// Keeps the deliveries of events labelled `label`.
    pub fn with_label(self, label: &'static str) -> (r: EventQuery<E, T>)
        ensures
            selection(ByLabel(label), self@, r@),
            E::obeys_label_spec() ==> r@ == self@.filter(|e: EventEntry<E, T>| e.spec_payload().spec_label() == label@),
    {
        let p = ByLabel(label);
        let entries = select(&self.entries, &p);
        proof {
            if E::obeys_label_spec() {
                lemma_selection_is_filter(p, self@, entries@, |e: EventEntry<E, T>| e.spec_payload().spec_label() == label@);
            }
        }
        EventQuery { entries }
    }

    /// Keeps only deliveries of events labelled `label`, given as an owned string.
    pub fn with_label_text(self, label: String) -> (r: EventQuery<E, T>)
        ensures
            selection(ByLabelText(label), self@, r@),
            E::obeys_label_spec() ==> r@ == self@.filter(|e: EventEntry<E, T>| e.spec_payload().spec_label() == label@),
    {
        let ghost f = |e: EventEntry<E, T>| e.spec_payload().spec_label() == label@;
        let p = ByLabelText(label);
        let entries = select(&self.entries, &p);
        proof {
            if E::obeys_label_spec() {
                lemma_selection_is_filter(p, self@, entries@, f);
            }
        }
        EventQuery { entries }
    }

}

} // verus!
