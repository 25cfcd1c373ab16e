//! Which topics an actor subscribes to.
use vstd::prelude::*;

use crate::routing::{eq_is_identity, Subscription};
use crate::topic::{Event, Topic};
use std::marker::PhantomData;
use vstd::std_specs::cmp::{PartialEqSpec, PartialEqSpecImpl};
use vstd::std_specs::convert::FromSpecImpl;

verus! {

/// Whether `t` occurs among `v` by the topic type's `==`; when that `==` is
/// identity, exactly whether `t` is among `v`.
fn holds_topic<T: PartialEq>(v: &Vec<T>, t: &T) -> (r: bool)
    ensures
        eq_is_identity::<T>() ==> r == v@.contains(*t),
{
    let n = v.len();
    for i in 0..n
        invariant
            n == v@.len(),
            eq_is_identity::<T>() ==> forall|k: int| 0 <= k < i ==> v@[k] != *t,
    {
        if v[i] == *t {
            proof {
                if eq_is_identity::<T>() {
                    assert(v[i as int].eq_spec(t));
                    assert(v@[i as int] == *t);
                }
            }
            return true;
        }
    }
    false
}

/// Whether every topic of `a` occurs among `b` (by identity, when the topic
/// type's `==` is identity).
fn holds_all<T: PartialEq>(a: &Vec<T>, b: &Vec<T>) -> (r: bool)
    ensures
        eq_is_identity::<T>() ==> r == forall|t: T| #[trigger] a@.contains(t) ==> b@.contains(t),
{
    let n = a.len();
    for i in 0..n
        invariant
            n == a@.len(),
            eq_is_identity::<T>() ==> forall|k: int| 0 <= k < i ==> b@.contains(#[trigger] a@[k]),
    {
        if !holds_topic(b, &a[i]) {
            proof {
                if eq_is_identity::<T>() {
                    assert(a@.contains(a@[i as int]));
                }
            }
            return false;
        }
    }
    proof {
        if eq_is_identity::<T>() {
            assert forall|t: T| #[trigger] a@.contains(t) implies b@.contains(t) by {
                let k = choose|k: int| 0 <= k < a@.len() && a@[k] == t;
                assert(b@.contains(a@[k]));
            }
        }
    }
    true
}

/// Two subscriptions are the same when both are to all topics, both to none, or
/// both to the same set of topics (order and repetition do not count).
pub open spec fn same_subscription<T>(a: Subscription<T>, b: Subscription<T>) -> bool {
    match (a, b) {
        (Subscription::All, Subscription::All) => true,
        (Subscription::NoTopics, Subscription::NoTopics) => true,
        (Subscription::Topics(x), Subscription::Topics(y)) => forall|t: T| #[trigger] x@.contains(t) <==> y@.contains(t),
        _ => false,
    }
}

/// The topics an actor subscribes to: all of them, none, or a set of topics.
#[derive(Debug)]
pub struct Subscribe<E: Event, T: Topic<E>> {
    subscription: Subscription<T>,
    marker: PhantomData<E>,
}

impl<E: Event, T: Topic<E>> Subscribe<E, T> {
    /// The subscription this stands for.
    pub closed spec fn spec_subscription(&self) -> Subscription<T> {
        self.subscription
    }

    /// Subscribes to all topics, as monitoring actors do.
    pub fn all() -> (r: Self)
        ensures
            r.spec_subscription() is All,
    {
        Subscribe { subscription: Subscription::All, marker: PhantomData }
    }

    /// Subscribes to no topic, as pure producers do.
    pub fn none() -> (r: Self)
        ensures
            r.spec_subscription() is NoTopics,
    {
        Subscribe { subscription: Subscription::NoTopics, marker: PhantomData }
    }

    /// Subscribes to the given topics, each once however often it is listed.
    pub fn to(topics: Vec<T>) -> (r: Self)
        ensures
            r.spec_subscription() is Topics,
            eq_is_identity::<T>() ==> (r.spec_subscription() matches Subscription::Topics(v) && v@.no_duplicates() && forall|t: T|
                #[trigger] v@.contains(t) <==> topics@.contains(t)),
    {
        let ghost all = topics@;
        let mut rest = topics;
        let mut set: Vec<T> = Vec::new();
        while rest.len() > 0
            invariant
                rest@ == all.take(rest@.len() as int),
                rest@.len() <= all.len(),
                eq_is_identity::<T>() ==> set@.no_duplicates(),
                eq_is_identity::<T>() ==> forall|t: T| #[trigger] set@.contains(t) <==> all.skip(rest@.len() as int).contains(t),
            decreases rest@.len(),
        {
            let ghost n = rest@.len();
            let t = rest.pop().unwrap();
            proof {
                assert(rest@ =~= all.take(rest@.len() as int));
                assert(all.skip(rest@.len() as int) =~= seq![t] + all.skip(n as int));
            }
            if !holds_topic(&set, &t) {
                let ghost before = set@;
                set.push(t);
                proof {
                    if eq_is_identity::<T>() {
                    assert forall|a: int, b: int| 0 <= a < set@.len() && 0 <= b < set@.len() && a != b implies set@[a] != set@[b] by {
                        if a == before.len() {
                            assert(before.contains(set@[b]));
                        } else if b == before.len() {
                            assert(before.contains(set@[a]));
                        }
                    }
                    assert forall|u: T| #[trigger] set@.contains(u) <==> all.skip(rest@.len() as int).contains(u) by {
                        let now = all.skip(rest@.len() as int);
                        if set@.contains(u) {
                            let k = choose|k: int| 0 <= k < set@.len() && set@[k] == u;
                            if k < before.len() {
                                assert(before.contains(u));
                                let j = choose|j: int| 0 <= j < all.skip(n as int).len() && all.skip(n as int)[j] == u;
                                assert(now[j + 1] == u);
                            } else {
                                assert(now[0] == u);
                            }
                        }
                        if now.contains(u) {
                            let j = choose|j: int| 0 <= j < now.len() && now[j] == u;
                            if j == 0 {
                                assert(set@[before.len() as int] == u);
                            } else {
                                assert(all.skip(n as int)[j - 1] == u);
                                assert(all.skip(n as int).contains(u));
                                assert(before.contains(u));
                                let k = choose|k: int| 0 <= k < before.len() && before[k] == u;
                                assert(set@[k] == u);
                            }
                        }
                    }
                    }
                }
            } else {
                proof {
                    if eq_is_identity::<T>() {
                    assert forall|u: T| #[trigger] set@.contains(u) <==> all.skip(rest@.len() as int).contains(u) by {
                        let now = all.skip(rest@.len() as int);
                        if now.contains(u) {
                            let j = choose|j: int| 0 <= j < now.len() && now[j] == u;
                            if j > 0 {
                                assert(all.skip(n as int)[j - 1] == u);
                            }
                        }
                        if set@.contains(u) {
                            let j = choose|j: int| 0 <= j < all.skip(n as int).len() && all.skip(n as int)[j] == u;
                            assert(now[j + 1] == u);
                        }
                    }
                    }
                }
            }
        }
        proof {
            assert(all.skip(0) =~= all);
        }
        Subscribe { subscription: Subscription::Topics(set), marker: PhantomData }
    }

    /// The subscription this stands for.
    pub fn into_subscription(self) -> (r: Subscription<T>)
        ensures
            r == self.spec_subscription(),
    {
        self.subscription
    }
}

impl<E: Event, T: Topic<E>> Clone for Subscribe<E, T> {
    /// The same kind of subscription; listed topics are cloned one by one.
    fn clone(&self) -> (r: Subscribe<E, T>)
        ensures
            r.spec_subscription() is All <==> self.spec_subscription() is All,
            r.spec_subscription() is NoTopics <==> self.spec_subscription() is NoTopics,
            self.spec_subscription() matches Subscription::Topics(v) ==> r.spec_subscription() matches Subscription::Topics(w)
                && w@.len() == v@.len() && forall|i: int| 0 <= i < v@.len() ==> cloned::<T>(v@[i], w@[i]),
    {
        let subscription = match &self.subscription {
            Subscription::All => Subscription::All,
            Subscription::NoTopics => Subscription::NoTopics,
            Subscription::Topics(v) => {
                let w = v.clone();
                proof {
                    assert forall|i: int| 0 <= i < v@.len() implies cloned::<T>(v@[i], w@[i]) by {
                        assert(cloned::<T>(v[i], w[i]));
                    }
                }
                Subscription::Topics(w)
            },
        };
        Subscribe { subscription, marker: PhantomData }
    }
}

/// A list of topics subscribes to each of them once.
impl<E: Event, T: Topic<E>> From<Vec<T>> for Subscribe<E, T> {
    fn from(topics: Vec<T>) -> (r: Subscribe<E, T>)
        ensures
            r.spec_subscription() is Topics,
            eq_is_identity::<T>() ==> (r.spec_subscription() matches Subscription::Topics(v) && v@.no_duplicates() && forall|t: T|
                #[trigger] v@.contains(t) <==> topics@.contains(t)),
    {
        Subscribe::to(topics)
    }
}

impl<E: Event, T: Topic<E>> FromSpecImpl<Vec<T>> for Subscribe<E, T> {
    open spec fn obeys_from_spec() -> bool {
        false
    }

    /// The conversion is described by `from`'s own contract.
    open spec fn from_spec(topics: Vec<T>) -> Subscribe<E, T> {
        arbitrary()
    }
}

/// A single topic subscribes to it alone.
impl<E: Event, T: Topic<E>> From<T> for Subscribe<E, T> {
    fn from(topic: T) -> (r: Subscribe<E, T>)
        ensures
            r.spec_subscription() matches Subscription::Topics(v) && v@ == seq![topic],
    {
        let mut v: Vec<T> = Vec::new();
        v.push(topic);
        Subscribe { subscription: Subscription::Topics(v), marker: PhantomData }
    }
}

impl<E: Event, T: Topic<E>> FromSpecImpl<T> for Subscribe<E, T> {
    open spec fn obeys_from_spec() -> bool {
        false
    }

    /// The conversion is described by `from`'s own contract.
    open spec fn from_spec(topic: T) -> Subscribe<E, T> {
        arbitrary()
    }
}

/// Subscriptions compare as sets of topics.
impl<E: Event, T: Topic<E>> PartialEq for Subscribe<E, T> {
    fn eq(&self, other: &Subscribe<E, T>) -> (r: bool) {
        match (&self.subscription, &other.subscription) {
            (Subscription::All, Subscription::All) => true,
            (Subscription::NoTopics, Subscription::NoTopics) => true,
            (Subscription::Topics(x), Subscription::Topics(y)) => {
                let there = holds_all(x, y);
                let back = holds_all(y, x);
                proof {
                    if eq_is_identity::<T>() {
                        assert((there && back) == forall|t: T| #[trigger] x@.contains(t) <==> y@.contains(t));
                    }
                }
                there && back
            },
            _ => false,
        }
    }
}

impl<E: Event, T: Topic<E>> PartialEqSpecImpl for Subscribe<E, T> {
    open spec fn obeys_eq_spec() -> bool {
        eq_is_identity::<T>()
    }

    open spec fn eq_spec(&self, other: &Subscribe<E, T>) -> bool {
        same_subscription(self.spec_subscription(), other.spec_subscription())
    }
}

impl<E: Event, T: Topic<E>> Eq for Subscribe<E, T> {}

/// Subscriptions made by `to` are equal exactly when they were given the same
/// set of topics, whatever the order and repetitions.
pub proof fn law_to_equal_iff_same_topics<E: Event, T: Topic<E>>(a: Subscribe<E, T>, b: Subscribe<E, T>, ta: Seq<T>, tb: Seq<T>)
    requires
        a.spec_subscription() matches Subscription::Topics(v) && forall|t: T| #[trigger] v@.contains(t) <==> ta.contains(t),
        b.spec_subscription() matches Subscription::Topics(w) && forall|t: T| #[trigger] w@.contains(t) <==> tb.contains(t),
    ensures
        same_subscription(a.spec_subscription(), b.spec_subscription()) <==> forall|t: T| #[trigger] ta.contains(t) <==> tb.contains(t),
{
    if let (Subscription::Topics(v), Subscription::Topics(w)) = (a.spec_subscription(), b.spec_subscription()) {
        if forall|t: T| #[trigger] ta.contains(t) <==> tb.contains(t) {
            assert forall|t: T| #[trigger] v@.contains(t) <==> w@.contains(t) by {
                assert(ta.contains(t) <==> tb.contains(t));
            }
        }
        if same_subscription(a.spec_subscription(), b.spec_subscription()) {
            assert forall|t: T| #[trigger] ta.contains(t) <==> tb.contains(t) by {
                assert(v@.contains(t) <==> w@.contains(t));
            }
        }
    }
}

} // verus!
