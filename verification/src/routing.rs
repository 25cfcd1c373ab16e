//! The broker's subscriber registry and its routing decisions.
use vstd::prelude::*;

use crate::error::Error;
use crate::ids::ActorId;
use crate::policy::OverflowPolicy;
use crate::command::Command;
use vstd::std_specs::cmp::PartialEqSpec;
use crate::seqs::{lemma_filter_members, lemma_filter_out_absent, lemma_push_filter_out, other_than};

verus! {

/// The topic type's `==` is identity: it answers `true` exactly for equal values.
pub open spec fn eq_is_identity<T: PartialEq>() -> bool {
    &&& T::obeys_eq_spec()
    &&& forall|a: T, b: T| #[trigger] a.eq_spec(&b) <==> a == b
}

/// The default topic compares by identity, so the registry can route it.
pub proof fn lemma_default_topic_eq_is_identity()
    ensures
        eq_is_identity::<crate::topic::DefaultTopic>(),
{
}

/// The names of a sequence of actor ids.
pub open spec fn names_of(ids: Seq<ActorId>) -> Seq<Seq<char>> {
    ids.map_values(|a: ActorId| a@)
}

/// The list of subscribers kept for topic `t`: the one paired with `t` among
/// `keys`, or none.
pub open spec fn lookup<T>(keys: Seq<T>, members: Seq<Seq<Seq<char>>>, t: T) -> Seq<Seq<char>> {
    if exists|j: int| 0 <= j < keys.len() && keys[j] == t {
        members[choose|j: int| 0 <= j < keys.len() && keys[j] == t]
    } else {
        Seq::empty()
    }
}

/// No value occurs twice among the keys.
pub open spec fn distinct_keys<T>(keys: Seq<T>) -> bool {
    forall|a: int, b: int| 0 <= a < keys.len() && 0 <= b < keys.len() && a != b ==> keys[a] != keys[b]
}

/// With distinct keys, the list for the key at `j` is the list at `j`.
pub proof fn lemma_lookup_at<T>(keys: Seq<T>, members: Seq<Seq<Seq<char>>>, j: int)
    requires
        distinct_keys(keys),
        0 <= j < keys.len(),
    ensures
        lookup(keys, members, keys[j]) == members[j],
{
    let k = choose|k: int| 0 <= k < keys.len() && keys[k] == keys[j];
    assert(k == j);
}

/// Replacing the list at `j` changes what `keys[j]` looks up and nothing else.
pub proof fn lemma_lookup_update<T>(keys: Seq<T>, lists: Seq<Seq<Seq<char>>>, j: int, x: Seq<Seq<char>>)
    requires
        distinct_keys(keys),
        keys.len() == lists.len(),
        0 <= j < keys.len(),
    ensures
        forall|u: T| #[trigger] lookup(keys, lists.update(j, x), u) == if u == keys[j] {
            x
        } else {
            lookup(keys, lists, u)
        },
{
    assert forall|u: T| #[trigger] lookup(keys, lists.update(j, x), u) == if u == keys[j] {
        x
    } else {
        lookup(keys, lists, u)
    } by {
        if exists|k: int| 0 <= k < keys.len() && keys[k] == u {
            let k = choose|k: int| 0 <= k < keys.len() && keys[k] == u;
            lemma_lookup_at(keys, lists, k);
            lemma_lookup_at(keys, lists.update(j, x), k);
        }
    }
}

/// Adding a new key with its list makes that key look up the list and
/// leaves every other key as it was.
pub proof fn lemma_lookup_push<T>(keys: Seq<T>, lists: Seq<Seq<Seq<char>>>, t: T, x: Seq<Seq<char>>)
    requires
        distinct_keys(keys),
        keys.len() == lists.len(),
        !keys.contains(t),
    ensures
        distinct_keys(keys.push(t)),
        forall|u: T| #[trigger] lookup(keys.push(t), lists.push(x), u) == if u == t {
            x
        } else {
            lookup(keys, lists, u)
        },
{
    let k2 = keys.push(t);
    let l2 = lists.push(x);
    assert(distinct_keys(k2)) by {
        assert forall|a: int, b: int| 0 <= a < k2.len() && 0 <= b < k2.len() && a != b implies k2[a] != k2[b] by {
            if a == keys.len() {
                assert(keys[b] == k2[b]);
            } else if b == keys.len() {
                assert(keys[a] == k2[a]);
            }
        }
    }
    assert forall|u: T| #[trigger] lookup(k2, l2, u) == if u == t {
        x
    } else {
        lookup(keys, lists, u)
    } by {
        if u == t {
            lemma_lookup_at(k2, l2, keys.len() as int);
        } else if exists|k: int| 0 <= k < keys.len() && keys[k] == u {
            let k = choose|k: int| 0 <= k < keys.len() && keys[k] == u;
            lemma_lookup_at(keys, lists, k);
            lemma_lookup_at(k2, l2, k);
        } else {
            assert(!exists|k: int| 0 <= k < k2.len() && k2[k] == u) by {
                if exists|k: int| 0 <= k < k2.len() && k2[k] == u {
                    let k = choose|k: int| 0 <= k < k2.len() && k2[k] == u;
                    assert(k < keys.len());
                    assert(keys[k] == u);
                }
            }
        }
    }
}

/// The actors an event is routed to: the subscribers of its topic followed by
/// the subscribers to all topics, leaving out closed subscribers and the sender.
pub open spec fn recipients(
    topic_subscribers: Seq<Seq<char>>,
    all_subscribers: Seq<Seq<char>>,
    closed: Seq<Seq<char>>,
    sender: Seq<char>,
) -> Seq<Seq<char>> {
    (topic_subscribers + all_subscribers).filter(deliverable(closed, sender))
}

/// Whether an actor may be handed an event: its channel is open and it is not
/// the event's sender.
pub open spec fn deliverable(closed: Seq<Seq<char>>, sender: Seq<char>) -> spec_fn(Seq<char>) -> bool {
    |x: Seq<char>| !closed.contains(x) && x != sender
}

/// Which topics an actor subscribes to.
#[derive(Debug, Clone)]
pub enum Subscription<T> {
    /// Every topic.
    All,
    /// The listed topics.
    Topics(Vec<T>),
    /// No topic (a pure producer).
    NoTopics,
}

impl<T> Subscription<T> {
    /// Whether this subscription names topic `t` explicitly.
    pub open spec fn lists(&self, t: T) -> bool {
        match self {
            Subscription::Topics(v) => v@.contains(t),
            _ => false,
        }
    }
}

/// The contents of a subscriber registry; [`Registry`] keeps them well formed.
///
/// The registry of subscribers the broker routes events to.
///
/// It keeps the registered actors in registration order, the actors subscribed
/// to all topics, and for each topic with subscribers the list of them in
/// subscription order.
pub struct RegistryState<T> {
    names: Vec<ActorId>,
    for_all: Vec<ActorId>,
    keys: Vec<T>,
    members: Vec<Vec<ActorId>>,
}

impl<T> RegistryState<T> {
    /// The registered actors, in registration order.
    pub closed spec fn registered(&self) -> Seq<Seq<char>> {
        names_of(self.names@)
    }

    /// The actors subscribed to all topics, in registration order.
    pub closed spec fn subscribed_to_all(&self) -> Seq<Seq<char>> {
        names_of(self.for_all@)
    }

    closed spec fn member_lists(&self) -> Seq<Seq<Seq<char>>> {
        self.members@.map_values(|v: Vec<ActorId>| names_of(v@))
    }

    /// The actors subscribed to topic `t`, in subscription order.
    pub closed spec fn topic_subscribers(&self, t: T) -> Seq<Seq<char>> {
        lookup(self.keys@, self.member_lists(), t)
    }

    /// The `j`-th topic entry lists someone, nobody twice, and only registered
    /// actors that are not subscribed to all topics.
    closed spec fn entry_ok(&self, j: int) -> bool {
        &&& self.member_lists()[j].len() > 0
        &&& self.member_lists()[j].no_duplicates()
        &&& forall|x: Seq<char>| #[trigger] self.member_lists()[j].contains(x) ==> self.registered().contains(x)
            && !self.subscribed_to_all().contains(x)
    }

    /// The registry's invariant: actors are registered once; every listed
    /// subscriber is registered, listed once per list and not also subscribed
    /// to all topics; each topic has at most one list, and it is not empty.
    pub closed spec fn wf(&self) -> bool {
        &&& self.keys@.len() == self.members@.len()
        &&& distinct_keys(self.keys@)
        &&& forall|j: int| 0 <= j < self.members@.len() ==> #[trigger] self.entry_ok(j)
        &&& self.registered().no_duplicates()
        &&& self.subscribed_to_all().no_duplicates()
        &&& forall|x: Seq<char>| #[trigger] self.subscribed_to_all().contains(x) ==> self.registered().contains(x)
    }

    /// Whether topic `t` has an entry in the index.
    pub closed spec fn has_topic(&self, t: T) -> bool {
        self.keys@.contains(t)
    }

    /// A topic keeps an entry in the index exactly while it has subscribers.
    pub proof fn lemma_entry_iff_subscribed(&self, t: T)
        requires
            self.wf(),
        ensures
            self.has_topic(t) <==> self.topic_subscribers(t).len() > 0,
    {
        if exists|k: int| 0 <= k < self.keys@.len() && self.keys@[k] == t {
            let k = choose|k: int| 0 <= k < self.keys@.len() && self.keys@[k] == t;
            lemma_lookup_at(self.keys@, self.member_lists(), k);
            assert(self.entry_ok(k));
        }
    }

    /// The invariant's facts on the registered actors and the subscribers to all topics.
    pub proof fn lemma_wf_facts(&self)
        requires
            self.wf(),
        ensures
            self.registered().no_duplicates(),
            self.subscribed_to_all().no_duplicates(),
            forall|x: Seq<char>| #[trigger] self.subscribed_to_all().contains(x) ==> self.registered().contains(x),
    {
    }

    /// Whoever a topic lists is registered.
    pub proof fn lemma_lists_registered(&self, t: T)
        requires
            self.wf(),
        ensures
            forall|x: Seq<char>| #[trigger] self.topic_subscribers(t).contains(x) ==> self.registered().contains(x)
                && !self.subscribed_to_all().contains(x),
            self.topic_subscribers(t).no_duplicates(),
    {
        if exists|k: int| 0 <= k < self.keys@.len() && self.keys@[k] == t {
            let k = choose|k: int| 0 <= k < self.keys@.len() && self.keys@[k] == t;
            lemma_lookup_at(self.keys@, self.member_lists(), k);
            assert(self.entry_ok(k));
        } else {
            assert(self.topic_subscribers(t) =~= Seq::empty());
        }
    }

    /// Whether an actor named like `id` is registered.
    pub(crate) fn is_registered(&self, id: &ActorId) -> (r: bool)
        ensures
            r == self.registered().contains(id@),
    {
        contains_name(&self.names, id)
    }

    /// How many actors are registered.
    pub(crate) fn subscriber_count(&self) -> (r: usize)
        ensures
            r == self.registered().len(),
    {
        self.names.len()
    }

    /// The actors subscribed to all topics, in registration order.
    pub(crate) fn subscribers_for_all(&self) -> (r: Vec<ActorId>)
        ensures
            names_of(r@) == self.subscribed_to_all(),
    {
        copy_ids(&self.for_all)
    }

    /// An empty registry.
    pub(crate) fn new() -> (r: RegistryState<T>)
        ensures
            r.wf(),
            r.registered().len() == 0,
            r.subscribed_to_all().len() == 0,
            forall|t: T| #[trigger] r.topic_subscribers(t).len() == 0,
    {
        let r = RegistryState { names: Vec::new(), for_all: Vec::new(), keys: Vec::new(), members: Vec::new() };
        proof {
            assert(r.member_lists() =~= Seq::empty());
            assert(r.registered() =~= Seq::empty());
            assert(r.subscribed_to_all() =~= Seq::empty());
        }
        r
    }
}

/// Whether an actor with `id`'s name is among `ids`.
pub fn contains_name(ids: &Vec<ActorId>, id: &ActorId) -> (r: bool)
    ensures
        r == names_of(ids@).contains(id@),
{
    let n = ids.len();
    for i in 0..n
        invariant
            n == ids@.len(),
            forall|k: int| 0 <= k < i ==> ids@[k]@ != id@,
    {
        if ids[i] == *id {
            proof {
                assert(names_of(ids@)[i as int] == id@);
            }
            return true;
        }
    }
    proof {
        if names_of(ids@).contains(id@) {
            let k = choose|k: int| 0 <= k < names_of(ids@).len() && names_of(ids@)[k] == id@;
            assert(ids@[k]@ == id@);
        }
    }
    false
}

/// `ids` without the actors named like `id`, in order.
pub fn without(ids: &Vec<ActorId>, id: &ActorId) -> (r: Vec<ActorId>)
    ensures
        names_of(r@) == names_of(ids@).filter(other_than(id@)),
{
    let ghost f = other_than(id@);
    let mut r: Vec<ActorId> = Vec::new();
    let n = ids.len();
    for i in 0..n
        invariant
            n == ids@.len(),
            f == other_than(id@),
            names_of(r@) == names_of(ids@).take(i as int).filter(f),
    {
        proof {
            crate::seqs::lemma_filter_step(names_of(ids@), f, i as int);
            assert(names_of(ids@).take(i as int + 1) =~= names_of(ids@).take(i as int + 1));
        }
        if !(ids[i] == *id) {
            r.push(ids[i].clone());
            proof {
                assert(names_of(r@) =~= names_of(ids@).take(i as int).filter(f).push(ids@[i as int]@));
            }
        }
    }
    proof {
        assert(names_of(ids@).take(n as int) =~= names_of(ids@));
    }
    r
}

/// A copy of `ids`.
pub(crate) fn copy_ids(ids: &Vec<ActorId>) -> (r: Vec<ActorId>)
    ensures
        r@ == ids@,
{
    let mut r: Vec<ActorId> = Vec::new();
    let n = ids.len();
    for i in 0..n
        invariant
            n == ids@.len(),
            r@ == ids@.take(i as int),
    {
        r.push(ids[i].clone());
        proof {
            assert(ids@.take(i as int + 1) =~= ids@.take(i as int).push(ids@[i as int]));
        }
    }
    proof {
        assert(ids@.take(n as int) =~= ids@);
    }
    r
}

/// Appends to `out` the actors of `candidates` that are neither closed nor the sender.
fn extend_recipients(out: &mut Vec<ActorId>, candidates: &Vec<ActorId>, closed: &Vec<ActorId>, sender: &ActorId)
    ensures
        names_of(final(out)@) == names_of(old(out)@) + names_of(candidates@).filter(
            deliverable(names_of(closed@), sender@),
        ),
{
    let ghost f = deliverable(names_of(closed@), sender@);
    let ghost start = names_of(out@);
    let n = candidates.len();
    for i in 0..n
        invariant
            n == candidates@.len(),
            f == deliverable(names_of(closed@), sender@),
            names_of(out@) == start + names_of(candidates@).take(i as int).filter(f),
    {
        proof {
            crate::seqs::lemma_filter_step(names_of(candidates@), f, i as int);
        }
        let c = &candidates[i];
        if !contains_name(closed, c) && !(*c == *sender) {
            let ghost before = out@;
            out.push(c.clone());
            proof {
                assert(names_of(out@) =~= names_of(before).push(c@));
            }
        }
    }
    proof {
        assert(names_of(candidates@).take(n as int) =~= names_of(candidates@));
    }
}

impl<T: PartialEq> RegistryState<T> {
    /// The position of topic `t` among the kept topics.
    fn find_topic(&self, t: &T) -> (r: Option<usize>)
        requires
            eq_is_identity::<T>(),
        ensures
            r matches Some(j) ==> j < self.keys@.len() && self.keys@[j as int] == *t,
            r is None ==> forall|j: int| 0 <= j < self.keys@.len() ==> self.keys@[j] != *t,
    {
        let n = self.keys.len();
        for j in 0..n
            invariant
                n == self.keys@.len(),
                eq_is_identity::<T>(),
                forall|k: int| 0 <= k < j ==> self.keys@[k] != *t,
        {
            if self.keys[j] == *t {
                return Some(j);
            }
        }
        None
    }

    /// Adds `id` to the subscribers of topic `t`, unless it is there already.
    fn subscribe_topic(&mut self, t: T, id: &ActorId)
        requires
            old(self).wf(),
            old(self).registered().contains(id@),
            !old(self).subscribed_to_all().contains(id@),
            eq_is_identity::<T>(),
        ensures
            final(self).wf(),
            final(self).registered() == old(self).registered(),
            final(self).subscribed_to_all() == old(self).subscribed_to_all(),
            forall|u: T| #[trigger] final(self).topic_subscribers(u) == if u == t && !old(self).topic_subscribers(t).contains(id@) {
                old(self).topic_subscribers(t).push(id@)
            } else {
                old(self).topic_subscribers(u)
            },
    {
        let ghost lists0 = self.member_lists();
        let ghost keys0 = self.keys@;
        match self.find_topic(&t) {
            Some(j) => {
                proof {
                    lemma_lookup_at(keys0, lists0, j as int);
                }
                if !contains_name(&self.members[j], id) {
                    self.members[j].push(id.clone());
                    proof {
                        let x = lists0[j as int].push(id@);
                        assert(self.member_lists() =~= lists0.update(j as int, x)) by {
                            assert(names_of(self.members@[j as int]@) =~= x);
                        }
                        lemma_lookup_update(keys0, lists0, j as int, x);
                        assert forall|k: int| 0 <= k < self.members@.len() implies #[trigger] self.entry_ok(k) by {
                            assert(old(self).entry_ok(k));
                            if k == j {
                                assert forall|y: Seq<char>| #[trigger] x.contains(y) implies self.registered().contains(y)
                                    && !self.subscribed_to_all().contains(y) by {
                                    if y != id@ {
                                        assert(lists0[k].contains(y));
                                    }
                                }
                            }
                        }
                    }
                }
            },
            None => {
                let mut v: Vec<ActorId> = Vec::new();
                v.push(id.clone());
                proof {
                    assert(!keys0.contains(t));
                    lemma_lookup_push(keys0, lists0, t, seq![id@]);
                    assert(names_of(v@) =~= seq![id@]);
                    assert(lookup(keys0, lists0, t) =~= Seq::empty());
                }
                self.keys.push(t);
                self.members.push(v);
                proof {
                    assert(self.member_lists() =~= lists0.push(seq![id@]));
                    assert(seq![id@] =~= Seq::<Seq<char>>::empty().push(id@));
                    assert forall|k: int| 0 <= k < self.members@.len() implies #[trigger] self.entry_ok(k) by {
                        if k == keys0.len() {
                            assert forall|y: Seq<char>| #[trigger] self.member_lists()[k].contains(y) implies self.registered().contains(y)
                                && !self.subscribed_to_all().contains(y) by {
                                assert(self.member_lists()[k][0] == id@);
                            }
                        } else {
                            assert(old(self).entry_ok(k));
                        }
                    }
                }
            },
        }
    }

    /// Registers actor `id` with its subscription.
    ///
    /// Fails with `DuplicateActorName` and changes nothing when an actor of that
    /// name is registered already. Otherwise the actor is registered last; a
    /// subscriber to all topics is appended to those, and a subscriber to listed
    /// topics is appended to the subscribers of each listed topic.
    pub(crate) fn add_subscriber(&mut self, id: ActorId, topics: Subscription<T>) -> (r: Result<(), Error>)
        requires
            old(self).wf(),
            eq_is_identity::<T>(),
        ensures
            final(self).wf(),
            old(self).registered().contains(id@) ==> r == Err::<(), Error>(Error::DuplicateActorName(id)) && *final(self) == *old(self),
            !old(self).registered().contains(id@) ==> {
                &&& r is Ok
                &&& final(self).registered() == old(self).registered().push(id@)
                &&& final(self).subscribed_to_all() == if topics is All {
                    old(self).subscribed_to_all().push(id@)
                } else {
                    old(self).subscribed_to_all()
                }
                &&& forall|u: T| #[trigger] final(self).topic_subscribers(u) == if topics.lists(u) {
                    old(self).topic_subscribers(u).push(id@)
                } else {
                    old(self).topic_subscribers(u)
                }
            },
    {
        if contains_name(&self.names, &id) {
            return Err(Error::DuplicateActorName(id));
        }
        let ghost before = *self;
        proof {
            assert forall|u: T| !(#[trigger] before.topic_subscribers(u)).contains(id@) by {
                before.lemma_lists_registered(u);
            }
        }
        self.names.push(id.clone());
        proof {
            assert(self.registered() =~= before.registered().push(id@));
            assert(self.member_lists() == before.member_lists());
            assert(self.registered().no_duplicates()) by {
                assert forall|a: int, b: int| 0 <= a < self.registered().len() && 0 <= b < self.registered().len() && a != b
                    implies self.registered()[a] != self.registered()[b] by {
                    if a == before.registered().len() {
                        assert(before.registered().contains(self.registered()[b]));
                    } else if b == before.registered().len() {
                        assert(before.registered().contains(self.registered()[a]));
                    }
                }
            }
            assert(self.subscribed_to_all() == before.subscribed_to_all());
            assert forall|k: int| 0 <= k < self.members@.len() implies #[trigger] self.entry_ok(k) by {
                assert(before.entry_ok(k));
                assert forall|y: Seq<char>| #[trigger] self.member_lists()[k].contains(y) implies self.registered().contains(y)
                    && !self.subscribed_to_all().contains(y) by {
                    assert(before.registered().contains(y));
                    let q = choose|q: int| 0 <= q < before.registered().len() && before.registered()[q] == y;
                    assert(self.registered()[q] == y);
                }
            }
            assert forall|x: Seq<char>| #[trigger] self.subscribed_to_all().contains(x) implies self.registered().contains(x) by {
                assert(before.registered().contains(x));
                let q = choose|q: int| 0 <= q < before.registered().len() && before.registered()[q] == x;
                assert(self.registered()[q] == x);
            }
            assert(self.wf());
        }
        match topics {
            Subscription::All => {
                self.for_all.push(id.clone());
                proof {
                    assert forall|k: int| 0 <= k < self.members@.len() implies #[trigger] self.entry_ok(k) by {
                        assert(before.entry_ok(k));
                        assert forall|y: Seq<char>| #[trigger] self.member_lists()[k].contains(y) implies self.registered().contains(y)
                            && !self.subscribed_to_all().contains(y) by {
                            assert(before.registered().contains(y));
                            let q = choose|q: int| 0 <= q < before.registered().len() && before.registered()[q] == y;
                            assert(self.registered()[q] == y);
                            if self.subscribed_to_all().contains(y) {
                                let q2 = choose|q2: int| 0 <= q2 < self.subscribed_to_all().len() && self.subscribed_to_all()[q2] == y;
                                if q2 < before.subscribed_to_all().len() {
                                    assert(before.subscribed_to_all()[q2] == y);
                                }
                            }
                        }
                    }
                    assert(self.subscribed_to_all() =~= before.subscribed_to_all().push(id@));
                    assert(self.subscribed_to_all().no_duplicates()) by {
                        assert forall|a: int, b: int| 0 <= a < self.subscribed_to_all().len() && 0 <= b < self.subscribed_to_all().len() && a != b
                            implies self.subscribed_to_all()[a] != self.subscribed_to_all()[b] by {
                            if a == before.subscribed_to_all().len() {
                                assert(before.subscribed_to_all().contains(self.subscribed_to_all()[b]));
                            } else if b == before.subscribed_to_all().len() {
                                assert(before.subscribed_to_all().contains(self.subscribed_to_all()[a]));
                            }
                        }
                    }
                    assert forall|x: Seq<char>| #[trigger] self.subscribed_to_all().contains(x) implies self.registered().contains(x) by {
                        if x != id@ {
                            assert(before.subscribed_to_all().contains(x)) by {
                                let q = choose|q: int| 0 <= q < self.subscribed_to_all().len() && self.subscribed_to_all()[q] == x;
                                assert(before.subscribed_to_all()[q] == x);
                            }
                            assert(before.registered().contains(x));
                            let q = choose|q: int| 0 <= q < before.registered().len() && before.registered()[q] == x;
                            assert(self.registered()[q] == x);
                        } else {
                            assert(self.registered()[before.registered().len() as int] == id@);
                        }
                    }
                }
            },
            Subscription::Topics(mut ts) => {
                let ghost all_ts = ts@;
                proof {
                    if before.subscribed_to_all().contains(id@) {
                        assert(before.registered().contains(id@));
                    }
                }
                while ts.len() > 0
                    invariant
                        self.wf(),
                        eq_is_identity::<T>(),
                        self.registered() == before.registered().push(id@),
                        self.subscribed_to_all() == before.subscribed_to_all(),
                        ts@ == all_ts.take(ts@.len() as int),
                        ts@.len() <= all_ts.len(),
                        forall|u: T| #[trigger] self.topic_subscribers(u) == if all_ts.skip(ts@.len() as int).contains(u) {
                            before.topic_subscribers(u).push(id@)
                        } else {
                            before.topic_subscribers(u)
                        },
                        forall|u: T| !(#[trigger] before.topic_subscribers(u)).contains(id@),
                        !before.subscribed_to_all().contains(id@),
                    decreases ts@.len(),
                {
                    let ghost n = ts@.len();
                    let t = ts.pop().unwrap();
                    proof {
                        assert(t == all_ts[n - 1]);
                        assert(self.registered()[before.registered().len() as int] == id@);
                    }
                    let ghost mid = *self;
                    self.subscribe_topic(t, &id);
                    proof {
                        assert(ts@ =~= all_ts.take(ts@.len() as int));
                        assert forall|u: T| #[trigger] self.topic_subscribers(u) == if all_ts.skip(ts@.len() as int).contains(u) {
                            before.topic_subscribers(u).push(id@)
                        } else {
                            before.topic_subscribers(u)
                        } by {
                            let done = all_ts.skip(n as int);
                            let now = all_ts.skip(ts@.len() as int);
                            assert(now =~= seq![t] + done);
                            if u == t {
                                assert(now.contains(u)) by { assert(now[0] == u); }
                                if done.contains(u) {
                                    assert(mid.topic_subscribers(u).contains(id@)) by {
                                        let p = before.topic_subscribers(u);
                                        assert(p.push(id@)[p.len() as int] == id@);
                                    }
                                }
                            } else {
                                assert(now.contains(u) == done.contains(u)) by {
                                    if now.contains(u) {
                                        let k = choose|k: int| 0 <= k < now.len() && now[k] == u;
                                        assert(done[k - 1] == u);
                                    }
                                    if done.contains(u) {
                                        let k = choose|k: int| 0 <= k < done.len() && done[k] == u;
                                        assert(now[k + 1] == u);
                                    }
                                }
                            }
                        }
                    }
                }
                proof {
                    assert(all_ts.skip(0) =~= all_ts);
                }
            },
            Subscription::NoTopics => {},
        }
        Ok(())
    }

    /// Unregisters actor `id`: it leaves the registered actors, the subscribers
    /// to all topics and the subscribers of every topic; a topic left without
    /// subscribers is dropped. An unknown actor changes nothing.
    pub(crate) fn remove_subscriber(&mut self, id: &ActorId)
        requires
            old(self).wf(),
        ensures
            final(self).wf(),
            final(self).registered() == old(self).registered().filter(other_than(id@)),
            final(self).subscribed_to_all() == old(self).subscribed_to_all().filter(other_than(id@)),
            forall|u: T| #[trigger] final(self).topic_subscribers(u) == old(self).topic_subscribers(u).filter(other_than(id@)),
    {
        let ghost before = *self;
        let ghost f = other_than(id@);
        if !contains_name(&self.names, id) {
            proof {
                crate::seqs::lemma_filter_out_absent(before.registered(), id@);
                if before.subscribed_to_all().contains(id@) {
                    assert(before.registered().contains(id@));
                }
                crate::seqs::lemma_filter_out_absent(before.subscribed_to_all(), id@);
                assert forall|u: T| #[trigger] before.topic_subscribers(u) == before.topic_subscribers(u).filter(f) by {
                    before.lemma_lists_registered(u);
                    if before.topic_subscribers(u).contains(id@) {
                        assert(before.registered().contains(id@));
                    }
                    crate::seqs::lemma_filter_out_absent(before.topic_subscribers(u), id@);
                }
            }
            return;
        }
        self.names = without(&self.names, id);
        self.for_all = without(&self.for_all, id);
        proof {
            lemma_filter_members(before.registered(), f);
            lemma_filter_members(before.subscribed_to_all(), f);
        }
        let mut old_keys: Vec<T> = Vec::new();
        std::mem::swap(&mut old_keys, &mut self.keys);
        let mut old_members: Vec<Vec<ActorId>> = Vec::new();
        std::mem::swap(&mut old_members, &mut self.members);
        let ghost keys0 = before.keys@;
        let ghost lists0 = before.member_lists();
        let ghost n0 = keys0.len();
        let mut keys: Vec<T> = Vec::new();
        let mut members: Vec<Vec<ActorId>> = Vec::new();
        proof {
            assert forall|j: int| 0 <= j < n0 implies (#[trigger] lists0[j]).no_duplicates() by {
                assert(before.entry_ok(j));
            }
        }
        while old_keys.len() > 0
            invariant
                n0 == keys0.len(),
                lists0.len() == n0,
                distinct_keys(keys0),
                forall|j: int| 0 <= j < n0 ==> (#[trigger] lists0[j]).no_duplicates(),
                old_keys@.len() == old_members@.len(),
                old_keys@.len() <= n0,
                old_keys@ == keys0.take(old_keys@.len() as int),
                forall|j: int| 0 <= j < old_members@.len() ==> names_of((#[trigger] old_members@[j])@) == lists0[j],
                keys@.len() == members@.len(),
                distinct_keys(keys@),
                forall|i: int| #![trigger keys@[i]] 0 <= i < keys@.len() ==> exists|m: int| #![trigger keys0[m]]
                    old_keys@.len() <= m < n0 && keys0[m] == keys@[i] && names_of(members@[i]@) == lists0[m].filter(f),
                forall|i: int| 0 <= i < members@.len() ==> (#[trigger] names_of(members@[i]@)).len() > 0,
                forall|m: int| old_keys@.len() <= m < n0 && (#[trigger] lists0[m]).filter(f).len() > 0 ==> keys@.contains(keys0[m]),
                f == other_than(id@),
            decreases old_keys@.len(),
        {
            let ghost m = (old_keys@.len() - 1) as int;
            let t = old_keys.pop().unwrap();
            let list = old_members.pop().unwrap();
            let kept = without(&list, id);
            proof {
                assert(t == keys0[m]);
                assert(names_of(list@) == lists0[m]);
                assert(old_keys@ =~= keys0.take(old_keys@.len() as int));
            }
            if kept.len() > 0 {
                proof {
                    assert(!keys@.contains(t)) by {
                        if keys@.contains(t) {
                            let i = choose|i: int| 0 <= i < keys@.len() && keys@[i] == t;
                            let mm = choose|mm: int| #![trigger keys0[mm]]
                                old_keys@.len() + 1 <= mm < n0 && keys0[mm] == keys@[i] && names_of(members@[i]@) == lists0[mm].filter(f);
                            assert(keys0[mm] == keys0[m]);
                        }
                    }
                    assert(distinct_keys(keys@.push(t))) by {
                        assert forall|a: int, b: int| 0 <= a < keys@.len() + 1 && 0 <= b < keys@.len() + 1 && a != b implies keys@.push(t)[a] != keys@.push(t)[b] by {
                            if a == keys@.len() {
                                assert(keys@[b] == keys@.push(t)[b]);
                            } else if b == keys@.len() {
                                assert(keys@[a] == keys@.push(t)[a]);
                            }
                        }
                    }
                }
                let ghost pk = keys@;
                let ghost pm = members@;
                keys.push(t);
                members.push(kept);
                proof {
                    assert forall|i: int| #![trigger keys@[i]] 0 <= i < keys@.len() implies exists|mm: int| #![trigger keys0[mm]]
                        old_keys@.len() <= mm < n0 && keys0[mm] == keys@[i] && names_of(members@[i]@) == lists0[mm].filter(f) by {
                        if i < pk.len() {
                            assert(keys@[i] == pk[i]);
                            assert(members@[i] == pm[i]);
                            assert(pk[i] == pk[i]);
                            let mm = choose|mm: int| #![trigger keys0[mm]]
                                old_keys@.len() + 1 <= mm < n0 && keys0[mm] == pk[i] && names_of(pm[i]@) == lists0[mm].filter(f);
                            assert(keys0[mm] == keys@[i]);
                        } else {
                            assert(keys0[m] == keys@[i]);
                        }
                    }
                    assert forall|i: int| 0 <= i < members@.len() implies (#[trigger] names_of(members@[i]@)).len() > 0 by {
                        if i < pm.len() {
                            assert(members@[i] == pm[i]);
                        }
                    }
                    assert forall|mm: int| old_keys@.len() <= mm < n0 && (#[trigger] lists0[mm]).filter(f).len() > 0 implies keys@.contains(keys0[mm]) by {
                        if mm == m {
                            assert(keys@[pk.len() as int] == t);
                        } else {
                            let i = choose|i: int| 0 <= i < pk.len() && pk[i] == keys0[mm];
                            assert(keys@[i] == keys0[mm]);
                        }
                    }
                }
            } else {
                proof {
                    assert(lists0[m].filter(f).len() == 0);
                    assert forall|i: int| #![trigger keys@[i]] 0 <= i < keys@.len() implies exists|mm: int| #![trigger keys0[mm]]
                        old_keys@.len() <= mm < n0 && keys0[mm] == keys@[i] && names_of(members@[i]@) == lists0[mm].filter(f) by {
                        let mm = choose|mm: int| #![trigger keys0[mm]]
                            old_keys@.len() + 1 <= mm < n0 && keys0[mm] == keys@[i] && names_of(members@[i]@) == lists0[mm].filter(f);
                        assert(keys0[mm] == keys@[i]);
                    }
                }
            }
            assert(forall|i: int| #![trigger keys@[i]] 0 <= i < keys@.len() ==> exists|mm: int| #![trigger keys0[mm]]
                    old_keys@.len() <= mm < n0 && keys0[mm] == keys@[i] && names_of(members@[i]@) == lists0[mm].filter(f));
        }
        self.keys = keys;
        self.members = members;
        proof {
            let ks = self.keys@;
            let ls = self.member_lists();
            assert forall|u: T| #[trigger] self.topic_subscribers(u) == before.topic_subscribers(u).filter(f) by {
                if exists|m: int| 0 <= m < n0 && keys0[m] == u {
                    let m = choose|m: int| 0 <= m < n0 && keys0[m] == u;
                    lemma_lookup_at(keys0, lists0, m);
                    if lists0[m].filter(f).len() > 0 {
                        assert(ks.contains(keys0[m]));
                        let i = choose|i: int| 0 <= i < ks.len() && ks[i] == u;
                        let mm = choose|mm: int| #![trigger keys0[mm]]
                            0 <= mm < n0 && keys0[mm] == ks[i] && names_of(self.members@[i]@) == lists0[mm].filter(f);
                        assert(mm == m);
                        lemma_lookup_at(ks, ls, i);
                    } else {
                        assert(!exists|i: int| 0 <= i < ks.len() && ks[i] == u) by {
                            if exists|i: int| 0 <= i < ks.len() && ks[i] == u {
                                let i = choose|i: int| 0 <= i < ks.len() && ks[i] == u;
                                let mm = choose|mm: int| #![trigger keys0[mm]]
                                    0 <= mm < n0 && keys0[mm] == ks[i] && names_of(self.members@[i]@) == lists0[mm].filter(f);
                                assert(mm == m);
                                assert(names_of(self.members@[i]@).len() > 0);
                            }
                        }
                        assert(lists0[m].filter(f) =~= Seq::empty());
                    }
                } else {
                    assert(!exists|i: int| 0 <= i < ks.len() && ks[i] == u) by {
                        if exists|i: int| 0 <= i < ks.len() && ks[i] == u {
                            let i = choose|i: int| 0 <= i < ks.len() && ks[i] == u;
                            let mm = choose|mm: int| #![trigger keys0[mm]]
                                0 <= mm < n0 && keys0[mm] == ks[i] && names_of(self.members@[i]@) == lists0[mm].filter(f);
                            assert(keys0[mm] == u);
                        }
                    }
                    reveal_with_fuel(Seq::<_>::filter, 1);
                    assert(before.topic_subscribers(u).filter(f) =~= Seq::empty());
                }
            }
            assert forall|i: int| 0 <= i < self.members@.len() implies #[trigger] self.entry_ok(i) by {
                assert(names_of(self.members@[i]@).len() > 0);
                let mm = choose|mm: int| #![trigger keys0[mm]]
                    0 <= mm < n0 && keys0[mm] == ks[i] && names_of(self.members@[i]@) == lists0[mm].filter(f);
                lemma_filter_members(lists0[mm], f);
                assert(before.entry_ok(mm));
                assert forall|y: Seq<char>| self.member_lists()[i].contains(y) implies #[trigger] self.registered().contains(y) by {
                    assert(lists0[mm].contains(y));
                    assert(before.registered().contains(y));
                }
            }
            assert(self.wf());
        }
    }

    /// Whether topic `t` has an entry in the index.
    pub(crate) fn has_topic_entry(&self, t: &T) -> (r: bool)
        requires
            eq_is_identity::<T>(),
        ensures
            r == self.has_topic(*t),
    {
        match self.find_topic(t) {
            Some(j) => true,
            None => false,
        }
    }

    /// The subscribers of topic `t`, in subscription order.
    pub(crate) fn subscribers_of(&self, t: &T) -> (r: Vec<ActorId>)
        requires
            self.wf(),
            eq_is_identity::<T>(),
        ensures
            names_of(r@) == self.topic_subscribers(*t),
    {
        match self.find_topic(t) {
            Some(j) => {
                proof {
                    lemma_lookup_at(self.keys@, self.member_lists(), j as int);
                }
                copy_ids(&self.members[j])
            },
            None => {
                proof {
                    assert(self.topic_subscribers(*t) =~= Seq::empty());
                }
                let r: Vec<ActorId> = Vec::new();
                proof {
                    assert(names_of(r@) =~= Seq::empty());
                }
                r
            },
        }
    }

    /// The actors an event of topic `topic`, sent by `sender`, is delivered to:
    /// the topic's subscribers, then the subscribers to all topics, without
    /// those whose channel is `closed` and without the sender itself.
    pub(crate) fn route(&self, topic: &T, sender: &ActorId, closed: &Vec<ActorId>) -> (r: Vec<ActorId>)
        requires
            self.wf(),
            eq_is_identity::<T>(),
        ensures
            names_of(r@) == recipients(self.topic_subscribers(*topic), self.subscribed_to_all(), names_of(closed@), sender@),
    {
        let ghost f = deliverable(names_of(closed@), sender@);
        let mut r: Vec<ActorId> = Vec::new();
        match self.find_topic(topic) {
            Some(j) => {
                proof {
                    lemma_lookup_at(self.keys@, self.member_lists(), j as int);
                }
                extend_recipients(&mut r, &self.members[j], closed, sender);
            },
            None => {},
        }
        let ghost first = names_of(r@);
        extend_recipients(&mut r, &self.for_all, closed, sender);
        proof {
            assert(first == self.topic_subscribers(*topic).filter(f)) by {
                if !exists|j: int| 0 <= j < self.keys@.len() && self.keys@[j] == *topic {
                    reveal_with_fuel(Seq::<_>::filter, 1);
                    assert(self.topic_subscribers(*topic) =~= Seq::empty());
                    assert(first =~= Seq::empty());
                }
            }
            Seq::filter_distributes_over_add(self.topic_subscribers(*topic), self.subscribed_to_all(), f);
        }
        r
    }
}

/// What came of offering an event to a subscriber's mailbox without waiting.
#[derive(Debug, Clone, Copy, PartialEq, Eq, Structural)]
pub enum SendOutcome {
    /// The event is in the mailbox.
    Accepted,
    /// The mailbox had no room.
    Full,
    /// The mailbox is closed: its actor has stopped.
    Closed,
}

/// What the broker does about one recipient once the event was offered to it.
#[derive(Debug, Clone, Copy, PartialEq, Eq, Structural)]
pub enum Dispatch {
    /// Nothing more: the event was delivered.
    Delivered,
    /// Stop the subscriber: its mailbox overflowed and the topic fails on overflow.
    StopSubscriber,
    /// Nothing more: the event is discarded for this subscriber.
    Dropped,
    /// Wait until the mailbox has room, then deliver.
    WaitForRoom,
    /// Nothing more: the subscriber had stopped already.
    AlreadyClosed,
}

/// The broker's answer to a send outcome under the topic's overflow policy.
pub open spec fn dispatch_for(outcome: SendOutcome, policy: OverflowPolicy) -> Dispatch {
    match outcome {
        SendOutcome::Accepted => Dispatch::Delivered,
        SendOutcome::Closed => Dispatch::AlreadyClosed,
        SendOutcome::Full => match policy {
            OverflowPolicy::Fail => Dispatch::StopSubscriber,
            OverflowPolicy::Drop => Dispatch::Dropped,
            OverflowPolicy::Block => Dispatch::WaitForRoom,
        },
    }
}

/// Decides what to do about a recipient after offering it an event: a full
/// mailbox is handled by the topic's overflow policy, a closed one is skipped.
pub fn dispatch(outcome: SendOutcome, policy: OverflowPolicy) -> (d: Dispatch)
    ensures
        d == dispatch_for(outcome, policy),
{
    match outcome {
        SendOutcome::Accepted => Dispatch::Delivered,
        SendOutcome::Closed => Dispatch::AlreadyClosed,
        SendOutcome::Full => match policy {
            OverflowPolicy::Fail => Dispatch::StopSubscriber,
            OverflowPolicy::Drop => Dispatch::Dropped,
            OverflowPolicy::Block => Dispatch::WaitForRoom,
        },
    }
}

/// Whether an overflow is reported to the monitors for this outcome: exactly
/// when the mailbox was full, whatever the policy.
pub fn reports_overflow(outcome: SendOutcome) -> (r: bool)
    ensures
        r == (outcome == SendOutcome::Full),
{
    match outcome {
        SendOutcome::Full => true,
        _ => false,
    }
}

/// A mailbox that took the event gets it once and nothing more is done,
/// whatever the topic's policy; a closed mailbox is skipped. The policy decides
/// only for a full mailbox: `Fail` stops the subscriber, `Drop` discards the
/// event, `Block` waits for room and sends it then. So a re-send happens only
/// after a full mailbox, under `Block`, and an overflow is reported exactly when
/// the answer is not a plain delivery or skip.
pub proof fn law_policy_decides_only_on_full(outcome: SendOutcome, policy: OverflowPolicy, other: OverflowPolicy)
    ensures
        outcome == SendOutcome::Accepted ==> dispatch_for(outcome, policy) == Dispatch::Delivered,
        outcome == SendOutcome::Closed ==> dispatch_for(outcome, policy) == Dispatch::AlreadyClosed,
        outcome != SendOutcome::Full ==> dispatch_for(outcome, policy) == dispatch_for(outcome, other),
        dispatch_for(outcome, policy) == Dispatch::Delivered <==> outcome == SendOutcome::Accepted,
        dispatch_for(outcome, policy) == Dispatch::WaitForRoom <==> (outcome == SendOutcome::Full && policy == OverflowPolicy::Block),
        dispatch_for(outcome, policy) == Dispatch::StopSubscriber <==> (outcome == SendOutcome::Full && policy
            == OverflowPolicy::Fail),
        dispatch_for(outcome, policy) == Dispatch::Dropped <==> (outcome == SendOutcome::Full && policy == OverflowPolicy::Drop),
        (outcome == SendOutcome::Full) <==> !(dispatch_for(outcome, policy) == Dispatch::Delivered || dispatch_for(outcome, policy)
            == Dispatch::AlreadyClosed),
{
}

impl<T: PartialEq> RegistryState<T> {
    /// Applies a command from the command channel to the broker's registry and
    /// says whether the broker stops: `StopBroker` stops it, `StopActor`
    /// unregisters that actor, `StopRuntime` leaves the broker to drain.
    pub(crate) fn apply_command(&mut self, cmd: &Command) -> (stop: bool)
        requires
            old(self).wf(),
        ensures
            final(self).wf(),
            stop == (*cmd is StopBroker),
            match *cmd {
                Command::StopActor(id) => {
                    &&& final(self).registered() == old(self).registered().filter(other_than(id@))
                    &&& final(self).subscribed_to_all() == old(self).subscribed_to_all().filter(other_than(id@))
                    &&& forall|u: T| #[trigger] final(self).topic_subscribers(u) == old(self).topic_subscribers(u).filter(
                        other_than(id@))
                },
                _ => *final(self) == *old(self),
            },
    {
        match cmd {
            Command::StopBroker => true,
            Command::StopActor(id) => {
                self.remove_subscriber(id);
                false
            },
            Command::StopRuntime => false,
        }
    }
}

/// The registry of subscribers the broker routes events to. Its state is always
/// well formed.
pub struct Registry<T> {
    state: RegistryState<T>,
}

impl<T> Registry<T> {
    /// The registry's state.
    pub closed spec fn state(&self) -> RegistryState<T> {
        self.state
    }

    /// The registered actors, in registration order.
    pub open spec fn registered(&self) -> Seq<Seq<char>> {
        self.state().registered()
    }

    /// The subscribers to all topics, in subscription order.
    pub open spec fn subscribed_to_all(&self) -> Seq<Seq<char>> {
        self.state().subscribed_to_all()
    }

    /// The subscribers of topic `t`, in subscription order.
    pub open spec fn topic_subscribers(&self, t: T) -> Seq<Seq<char>> {
        self.state().topic_subscribers(t)
    }

    /// Whether topic `t` has an entry in the index.
    pub open spec fn has_topic(&self, t: T) -> bool {
        self.state().has_topic(t)
    }

    /// The registry's invariant, which every registry keeps.
    #[verifier::type_invariant]
    pub closed spec fn wf(&self) -> bool {
        self.state.wf()
    }

    /// A topic keeps an entry in the index exactly while it has subscribers.
    pub proof fn lemma_entry_iff_subscribed(&self, t: T)
        requires
            self.wf(),
        ensures
            self.has_topic(t) <==> self.topic_subscribers(t).len() > 0,
    {
        self.state.lemma_entry_iff_subscribed(t);
    }

    /// The invariant's facts on the registered actors and the subscribers to all topics.
    pub proof fn lemma_wf_facts(&self)
        requires
            self.wf(),
        ensures
            self.registered().no_duplicates(),
            self.subscribed_to_all().no_duplicates(),
            forall|x: Seq<char>| #[trigger] self.subscribed_to_all().contains(x) ==> self.registered().contains(x),
    {
        self.state.lemma_wf_facts();
    }

    /// Whoever a topic lists is registered, once.
    pub proof fn lemma_lists_registered(&self, t: T)
        requires
            self.wf(),
        ensures
            forall|x: Seq<char>| #[trigger] self.topic_subscribers(t).contains(x) ==> self.registered().contains(x)
                && !self.subscribed_to_all().contains(x),
            self.topic_subscribers(t).no_duplicates(),
    {
        self.state.lemma_lists_registered(t);
    }

    /// An empty registry.
    pub fn new() -> (r: Registry<T>)
        ensures
            r.wf(),
            r.registered().len() == 0,
            r.subscribed_to_all().len() == 0,
            forall|t: T| #[trigger] r.topic_subscribers(t).len() == 0,
    {
        Registry { state: RegistryState::new() }
    }

    /// Whether an actor of this name is registered.
    pub fn is_registered(&self, id: &ActorId) -> (r: bool)
        ensures
            r == self.registered().contains(id@),
    {
        self.state.is_registered(id)
    }

    /// The number of registered actors.
    pub fn subscriber_count(&self) -> (r: usize)
        ensures
            r == self.registered().len(),
    {
        self.state.subscriber_count()
    }

    /// The subscribers to all topics, in subscription order.
    pub fn subscribers_for_all(&self) -> (r: Vec<ActorId>)
        ensures
            names_of(r@) == self.subscribed_to_all(),
    {
        self.state.subscribers_for_all()
    }

    /// Takes the state out, leaving an empty registry behind.
    fn take_state(&mut self) -> (s: RegistryState<T>)
        ensures
            s == old(self).state(),
            s.wf(),
            final(self).registered().len() == 0,
    {
        proof {
            use_type_invariant(&*self);
        }
        let mut other = Registry::new();
        std::mem::swap(self, &mut other);
        proof {
            use_type_invariant(&other);
        }
        let Registry { state } = other;
        state
    }
}

impl<T: PartialEq> Registry<T> {
    /// Registers actor `id` with its subscription.
    ///
    /// Fails with `DuplicateActorName` and changes nothing when an actor of that
    /// name is registered already. Otherwise the actor is registered last; a
    /// subscriber to all topics is appended to those, and a subscriber to listed
    /// topics is appended to the subscribers of each listed topic.
    pub fn add_subscriber(&mut self, id: ActorId, topics: Subscription<T>) -> (r: Result<(), Error>)
        requires
            eq_is_identity::<T>(),
        ensures
            old(self).registered().contains(id@) ==> r == Err::<(), Error>(Error::DuplicateActorName(id)) && final(self).state()
                == old(self).state(),
            !old(self).registered().contains(id@) ==> {
                &&& r is Ok
                &&& final(self).registered() == old(self).registered().push(id@)
                &&& final(self).subscribed_to_all() == if topics is All {
                    old(self).subscribed_to_all().push(id@)
                } else {
                    old(self).subscribed_to_all()
                }
                &&& forall|u: T| #[trigger] final(self).topic_subscribers(u) == if topics.lists(u) {
                    old(self).topic_subscribers(u).push(id@)
                } else {
                    old(self).topic_subscribers(u)
                }
            },
    {
        let mut state = self.take_state();
        let r = state.add_subscriber(id, topics);
        *self = Registry { state };
        r
    }

    /// Unregisters actor `id`: it leaves the registered actors, the subscribers
    /// to all topics and every topic's subscribers; the others keep their order.
    pub fn remove_subscriber(&mut self, id: &ActorId)
        ensures
            final(self).registered() == old(self).registered().filter(other_than(id@)),
            final(self).subscribed_to_all() == old(self).subscribed_to_all().filter(other_than(id@)),
            forall|u: T| #[trigger] final(self).topic_subscribers(u) == old(self).topic_subscribers(u).filter(other_than(id@)),
    {
        let mut state = self.take_state();
        state.remove_subscriber(id);
        *self = Registry { state };
    }

    /// Whether topic `t` has an entry in the index.
    pub fn has_topic_entry(&self, t: &T) -> (r: bool)
        requires
            eq_is_identity::<T>(),
        ensures
            r == self.has_topic(*t),
    {
        self.state.has_topic_entry(t)
    }

    /// The subscribers of topic `t`, in subscription order.
    pub fn subscribers_of(&self, t: &T) -> (r: Vec<ActorId>)
        requires
            eq_is_identity::<T>(),
        ensures
            names_of(r@) == self.topic_subscribers(*t),
    {
        proof {
            use_type_invariant(self);
        }
        self.state.subscribers_of(t)
    }

    /// The actors an event of topic `topic`, sent by `sender`, is delivered to:
    /// the topic's subscribers, then the subscribers to all topics, without
    /// those whose channel is `closed` and without the sender itself.
    pub fn route(&self, topic: &T, sender: &ActorId, closed: &Vec<ActorId>) -> (r: Vec<ActorId>)
        requires
            eq_is_identity::<T>(),
        ensures
            names_of(r@) == recipients(self.topic_subscribers(*topic), self.subscribed_to_all(), names_of(closed@), sender@),
    {
        proof {
            use_type_invariant(self);
        }
        self.state.route(topic, sender, closed)
    }

    /// Applies a command from the command channel to the registry and says
    /// whether the broker stops: `StopBroker` stops it, `StopActor` unregisters
    /// that actor, `StopRuntime` leaves the broker to drain.
    pub fn apply_command(&mut self, cmd: &Command) -> (stop: bool)
        ensures
            stop == (*cmd is StopBroker),
            match *cmd {
                Command::StopActor(id) => {
                    &&& final(self).registered() == old(self).registered().filter(other_than(id@))
                    &&& final(self).subscribed_to_all() == old(self).subscribed_to_all().filter(other_than(id@))
                    &&& forall|u: T| #[trigger] final(self).topic_subscribers(u) == old(self).topic_subscribers(u).filter(
                        other_than(id@))
                },
                _ => final(self).state() == old(self).state(),
            },
    {
        let mut state = self.take_state();
        let stop = state.apply_command(cmd);
        *self = Registry { state };
        stop
    }
}

/// An event reaches exactly the subscribers of its topic and the subscribers to
/// all topics, except the sender and those whose channel is closed.
pub proof fn law_recipients_are_open_subscribers_other_than_sender(
    topic_subscribers: Seq<Seq<char>>,
    all_subscribers: Seq<Seq<char>>,
    closed: Seq<Seq<char>>,
    sender: Seq<char>,
)
    ensures
        forall|x: Seq<char>| #[trigger] recipients(topic_subscribers, all_subscribers, closed, sender).contains(x) <==> (
        topic_subscribers.contains(x) || all_subscribers.contains(x)) && !closed.contains(x) && x != sender,
{
    let f = deliverable(closed, sender);
    let both = topic_subscribers + all_subscribers;
    lemma_filter_members(both, f);
    assert forall|x: Seq<char>| both.contains(x) <==> topic_subscribers.contains(x) || all_subscribers.contains(x) by {
        if both.contains(x) {
            let k = choose|k: int| 0 <= k < both.len() && both[k] == x;
            if k < topic_subscribers.len() {
                assert(topic_subscribers[k] == x);
            } else {
                assert(all_subscribers[k - topic_subscribers.len()] == x);
            }
        }
        if topic_subscribers.contains(x) {
            let k = choose|k: int| 0 <= k < topic_subscribers.len() && topic_subscribers[k] == x;
            assert(both[k] == x);
        }
        if all_subscribers.contains(x) {
            let k = choose|k: int| 0 <= k < all_subscribers.len() && all_subscribers[k] == x;
            assert(both[k + topic_subscribers.len()] == x);
        }
    }
}

/// In a well-formed registry an event reaches each actor at most once, and
/// only registered actors.
pub proof fn law_each_recipient_once_and_registered<T>(reg: Registry<T>, t: T, closed: Seq<Seq<char>>, sender: Seq<char>)
    requires
        reg.wf(),
    ensures
        recipients(reg.topic_subscribers(t), reg.subscribed_to_all(), closed, sender).no_duplicates(),
        forall|x: Seq<char>| #[trigger] recipients(reg.topic_subscribers(t), reg.subscribed_to_all(), closed, sender).contains(x)
            ==> reg.registered().contains(x),
{
    let a = reg.topic_subscribers(t);
    let b = reg.subscribed_to_all();
    let f = deliverable(closed, sender);
    reg.lemma_lists_registered(t);
    reg.lemma_wf_facts();
    assert forall|i: int, j: int| 0 <= i < a.len() && 0 <= j < b.len() implies a[i] != b[j] by {
        assert(a.contains(a[i]));
    }
    vstd::seq_lib::lemma_no_dup_in_concat(a, b);
    lemma_filter_members(a + b, f);
    law_recipients_are_open_subscribers_other_than_sender(a, b, closed, sender);
}

/// Once an actor is removed, no event is routed to it, whatever its topic.
pub proof fn law_removed_actor_receives_nothing<T>(
    before: Registry<T>,
    after: Registry<T>,
    id: Seq<char>,
    t: T,
    closed: Seq<Seq<char>>,
    sender: Seq<char>,
)
    requires
        before.wf(),
        after.wf(),
        after.registered() == before.registered().filter(other_than(id)),
    ensures
        !recipients(after.topic_subscribers(t), after.subscribed_to_all(), closed, sender).contains(id),
{
    lemma_filter_members(before.registered(), other_than(id));
    law_each_recipient_once_and_registered(after, t, closed, sender);
}

/// Registering a new actor and then removing it gives back the registry's
/// contents: the registered actors, the subscribers to all topics and the
/// subscribers of every topic.
pub proof fn law_add_then_remove_restores<T>(
    r0: Registry<T>,
    r1: Registry<T>,
    r2: Registry<T>,
    id: Seq<char>,
    topics: Subscription<T>,
)
    requires
        r0.wf(),
        !r0.registered().contains(id),
        r1.registered() == r0.registered().push(id),
        r1.subscribed_to_all() == if topics is All {
            r0.subscribed_to_all().push(id)
        } else {
            r0.subscribed_to_all()
        },
        forall|u: T| #[trigger] r1.topic_subscribers(u) == if topics.lists(u) {
            r0.topic_subscribers(u).push(id)
        } else {
            r0.topic_subscribers(u)
        },
        r2.registered() == r1.registered().filter(other_than(id)),
        r2.subscribed_to_all() == r1.subscribed_to_all().filter(other_than(id)),
        forall|u: T| #[trigger] r2.topic_subscribers(u) == r1.topic_subscribers(u).filter(other_than(id)),
    ensures
        r2.registered() == r0.registered(),
        r2.subscribed_to_all() == r0.subscribed_to_all(),
        forall|u: T| #[trigger] r2.topic_subscribers(u) == r0.topic_subscribers(u),
{
    r0.lemma_wf_facts();
    lemma_push_filter_out(r0.registered(), id);
    if r0.subscribed_to_all().contains(id) {
        assert(r0.registered().contains(id));
    }
    if topics is All {
        lemma_push_filter_out(r0.subscribed_to_all(), id);
    } else {
        lemma_filter_out_absent(r0.subscribed_to_all(), id);
    }
    assert forall|u: T| #[trigger] r2.topic_subscribers(u) == r0.topic_subscribers(u) by {
        r0.lemma_lists_registered(u);
        if r0.topic_subscribers(u).contains(id) {
            assert(r0.registered().contains(id));
        }
        if topics.lists(u) {
            lemma_push_filter_out(r0.topic_subscribers(u), id);
        } else {
            lemma_filter_out_absent(r0.topic_subscribers(u), id);
        }
    }
}

} // verus!
