//! Sequence operations used to state what the queries return.
use vstd::prelude::*;

verus! {

/// The elements of `s` whose mask bit is set, in order.
pub open spec fn keep<A>(s: Seq<A>, mask: Seq<bool>) -> Seq<A>
    decreases s.len(),
{
    if s.len() == 0 {
        Seq::empty()
    } else {
        let prev = keep(s.drop_last(), mask.drop_last());
        if mask.last() {
            prev.push(s.last())
        } else {
            prev
        }
    }
}

/// The elements of `s` whose key has not occurred earlier in `s`, in order: one
/// element per distinct key, the first with that key.
pub open spec fn firsts<A, K>(s: Seq<A>, key: spec_fn(A) -> K) -> Seq<A>
    decreases s.len(),
{
    if s.len() == 0 {
        Seq::empty()
    } else {
        let prev = firsts(s.drop_last(), key);
        if exists|k: int| 0 <= k < s.len() - 1 && key(s[k]) == key(s.last()) {
            prev
        } else {
            prev.push(s.last())
        }
    }
}

/// Some element of `s` has key `x`.
pub open spec fn has_key<A, K>(s: Seq<A>, key: spec_fn(A) -> K, x: K) -> bool {
    exists|j: int| 0 <= j < s.len() && key(s[j]) == x
}

/// Extending the prefix by one element extends what is kept by that element
/// exactly when its bit is set.
pub proof fn lemma_keep_step<A>(s: Seq<A>, mask: Seq<bool>, i: int)
    requires
        0 <= i < s.len(),
        mask.len() == s.len(),
    ensures
        keep(s.take(i + 1), mask.take(i + 1)) == (if mask[i] {
            keep(s.take(i), mask.take(i)).push(s[i])
        } else {
            keep(s.take(i), mask.take(i))
        }),
{
    assert(s.take(i + 1).drop_last() =~= s.take(i));
    assert(mask.take(i + 1).drop_last() =~= mask.take(i));
}

/// A mask that follows a predicate keeps what the predicate's filter keeps.
pub proof fn lemma_keep_is_filter<A>(s: Seq<A>, mask: Seq<bool>, f: spec_fn(A) -> bool)
    requires
        mask.len() == s.len(),
        forall|i: int| 0 <= i < s.len() ==> mask[i] == f(s[i]),
    ensures
        keep(s, mask) == s.filter(f),
    decreases s.len(),
{
    reveal_with_fuel(Seq::<_>::filter, 1);
    if s.len() > 0 {
        lemma_keep_is_filter(s.drop_last(), mask.drop_last(), f);
    }
}

/// Extending the prefix by one element extends the filter by it exactly when
/// the predicate holds of it.
pub proof fn lemma_filter_step<A>(s: Seq<A>, f: spec_fn(A) -> bool, i: int)
    requires
        0 <= i < s.len(),
    ensures
        s.take(i + 1).filter(f) == (if f(s[i]) {
            s.take(i).filter(f).push(s[i])
        } else {
            s.take(i).filter(f)
        }),
{
    reveal_with_fuel(Seq::<_>::filter, 1);
    assert(s.take(i + 1).drop_last() =~= s.take(i));
}

/// Extending the prefix by one element adds it to the first occurrences exactly
/// when its key is new.
pub proof fn lemma_firsts_step<A, K>(s: Seq<A>, key: spec_fn(A) -> K, i: int)
    requires
        0 <= i < s.len(),
    ensures
        firsts(s.take(i + 1), key) == (if exists|k: int| 0 <= k < i && key(s[k]) == key(s[i]) {
            firsts(s.take(i), key)
        } else {
            firsts(s.take(i), key).push(s[i])
        }),
{
    let t = s.take(i + 1);
    assert(t.drop_last() =~= s.take(i));
    assert((exists|k: int| 0 <= k < t.len() - 1 && key(t[k]) == key(t.last())) == (exists|k: int|
        0 <= k < i && key(s[k]) == key(s[i]))) by {
        if exists|k: int| 0 <= k < i && key(s[k]) == key(s[i]) {
            let k = choose|k: int| 0 <= k < i && key(s[k]) == key(s[i]);
            assert(key(t[k]) == key(t.last()));
        }
        if exists|k: int| 0 <= k < t.len() - 1 && key(t[k]) == key(t.last()) {
            let k = choose|k: int| 0 <= k < t.len() - 1 && key(t[k]) == key(t.last());
            assert(key(s[k]) == key(s[i]));
        }
    }
}

/// A key occurs among the first occurrences exactly when it occurs in the
/// sequence; the first occurrences come from the sequence and have distinct keys.
pub proof fn lemma_firsts_keys<A, K>(s: Seq<A>, key: spec_fn(A) -> K)
    ensures
        forall|x: K| #[trigger] has_key(firsts(s, key), key, x) == has_key(s, key, x),
        forall|j: int| 0 <= j < firsts(s, key).len() ==> s.contains(#[trigger] firsts(s, key)[j]),
        forall|a: int, b: int|
            0 <= a < b < firsts(s, key).len() ==> key(#[trigger] firsts(s, key)[a]) != key(
                #[trigger] firsts(s, key)[b],
            ),
    decreases s.len(),
{
    if s.len() > 0 {
        let p = s.drop_last();
        lemma_firsts_keys(p, key);
        let f = firsts(s, key);
        let fp = firsts(p, key);
        assert forall|x: K| #[trigger] has_key(f, key, x) == has_key(s, key, x) by {
            assert(has_key(fp, key, x) == has_key(p, key, x));
            if exists|j: int| 0 <= j < s.len() && #[trigger] key(s[j]) == x {
                let j = choose|j: int| 0 <= j < s.len() && #[trigger] key(s[j]) == x;
                if j < s.len() - 1 {
                    assert(key(p[j]) == x);
                    let jj = choose|jj: int| 0 <= jj < fp.len() && #[trigger] key(fp[jj]) == x;
                    assert(key(f[jj]) == x);
                } else if exists|k: int| 0 <= k < s.len() - 1 && key(s[k]) == key(s.last()) {
                    let k = choose|k: int| 0 <= k < s.len() - 1 && key(s[k]) == key(s.last());
                    assert(key(p[k]) == x);
                    let jj = choose|jj: int| 0 <= jj < fp.len() && #[trigger] key(fp[jj]) == x;
                    assert(key(f[jj]) == x);
                } else {
                    assert(key(f[f.len() - 1]) == x);
                }
            }
            if exists|j: int| 0 <= j < f.len() && #[trigger] key(f[j]) == x {
                let j = choose|j: int| 0 <= j < f.len() && #[trigger] key(f[j]) == x;
                if j < fp.len() {
                    assert(key(fp[j]) == x);
                    let jj = choose|jj: int| 0 <= jj < p.len() && #[trigger] key(p[jj]) == x;
                    assert(key(s[jj]) == x);
                } else {
                    assert(key(s[s.len() - 1]) == x);
                }
            }
        }
        assert forall|j: int| 0 <= j < f.len() implies s.contains(#[trigger] f[j]) by {
            if j < fp.len() {
                assert(p.contains(fp[j]));
                let k = choose|k: int| 0 <= k < p.len() && p[k] == fp[j];
                assert(s[k] == f[j]);
            } else {
                assert(s[s.len() - 1] == f[j]);
            }
        }
        assert forall|a: int, b: int| 0 <= a < b < f.len() implies key(#[trigger] f[a]) != key(
            #[trigger] f[b],
        ) by {
            if b < fp.len() {
                assert(key(fp[a]) != key(fp[b]));
            } else {
                if key(f[a]) == key(f[b]) {
                    assert(key(fp[a]) == key(s.last()));
                    let jj = choose|jj: int| 0 <= jj < p.len() && #[trigger] key(p[jj]) == key(fp[a]);
                    assert(key(s[jj]) == key(s.last()));
                }
            }
        }
    }
}

/// What a filter keeps comes from the sequence and satisfies the predicate, and
/// everything of the sequence that satisfies it is kept; a filter of a sequence
/// without duplicates has none.
pub proof fn lemma_filter_members<A>(s: Seq<A>, f: spec_fn(A) -> bool)
    ensures
        forall|x: A| #[trigger] s.filter(f).contains(x) <==> s.contains(x) && f(x),
        s.no_duplicates() ==> s.filter(f).no_duplicates(),
    decreases s.len(),
{
    reveal_with_fuel(Seq::<_>::filter, 1);
    if s.len() > 0 {
        let p = s.drop_last();
        lemma_filter_members(p, f);
        assert forall|x: A| #[trigger] s.filter(f).contains(x) <==> s.contains(x) && f(x) by {
            if s.contains(x) && f(x) {
                let k = choose|k: int| 0 <= k < s.len() && s[k] == x;
                s.lemma_filter_contains(f, k);
            }
            if s.filter(f).contains(x) {
                s.lemma_filter_contains_rev(f, x);
                let q = choose|q: int| 0 <= q < s.filter(f).len() && s.filter(f)[q] == x;
                s.lemma_filter_pred(f, q);
            }
        }
        if s.no_duplicates() {
            assert(p.no_duplicates()) by {
                assert forall|a: int, b: int| 0 <= a < p.len() && 0 <= b < p.len() && a != b implies p[a] != p[b] by {
                    assert(s[a] != s[b]);
                }
            }
            if f(s.last()) {
                assert(!p.contains(s.last())) by {
                    if p.contains(s.last()) {
                        let k = choose|k: int| 0 <= k < p.len() && p[k] == s.last();
                        assert(s[k] == s[s.len() - 1]);
                    }
                }
                assert(!p.filter(f).contains(s.last()));
                let g = s.filter(f);
                assert forall|a: int, b: int| 0 <= a < g.len() && 0 <= b < g.len() && a != b implies g[a] != g[b] by {
                    if a < g.len() - 1 && b < g.len() - 1 {
                        assert(p.filter(f)[a] != p.filter(f)[b]);
                    } else if a == g.len() - 1 {
                        assert(p.filter(f).contains(g[b]));
                    } else {
                        assert(p.filter(f).contains(g[a]));
                    }
                }
            }
        }
    }
}

/// The predicate that holds of everything but `x`.
pub open spec fn other_than<A>(x: A) -> spec_fn(A) -> bool {
    |y: A| y != x
}

/// Filtering out a value that does not occur changes nothing.
pub proof fn lemma_filter_out_absent<A>(s: Seq<A>, x: A)
    requires
        !s.contains(x),
    ensures
        s.filter(other_than(x)) == s,
    decreases s.len(),
{
    reveal_with_fuel(Seq::<_>::filter, 1);
    if s.len() > 0 {
        let p = s.drop_last();
        assert(!p.contains(x)) by {
            if p.contains(x) {
                let k = choose|k: int| 0 <= k < p.len() && p[k] == x;
                assert(s[k] == x);
            }
        }
        lemma_filter_out_absent(p, x);
        assert(s.last() != x) by {
            assert(s[s.len() - 1] == s.last());
        }
        assert(s =~= p.push(s.last()));
    }
}

/// Appending a value and then filtering it out gives back a sequence in which
/// it did not occur.
pub proof fn lemma_push_filter_out<A>(s: Seq<A>, x: A)
    requires
        !s.contains(x),
    ensures
        s.push(x).filter(other_than(x)) == s,
{
    reveal_with_fuel(Seq::<_>::filter, 1);
    assert(s.push(x).drop_last() =~= s);
    lemma_filter_out_absent(s, x);
}

/// For each position, whether its key is new there (no earlier element has it).
pub open spec fn first_mask<A, K>(s: Seq<A>, key: spec_fn(A) -> K) -> Seq<bool> {
    Seq::new(s.len(), |i: int| !exists|k: int| 0 <= k < i && key(s[k]) == key(s[i]))
}

/// The first occurrences are the elements at the positions where a key is new,
/// in the order of the sequence.
pub proof fn lemma_firsts_is_kept_in_order<A, K>(s: Seq<A>, key: spec_fn(A) -> K)
    ensures
        firsts(s, key) == keep(s, first_mask(s, key)),
    decreases s.len(),
{
    if s.len() > 0 {
        let p = s.drop_last();
        lemma_firsts_is_kept_in_order(p, key);
        assert(first_mask(s, key).drop_last() =~= first_mask(p, key)) by {
            assert forall|i: int| 0 <= i < p.len() implies first_mask(s, key).drop_last()[i] == first_mask(p, key)[i] by {
                if exists|k: int| 0 <= k < i && key(s[k]) == key(s[i]) {
                    let k = choose|k: int| 0 <= k < i && key(s[k]) == key(s[i]);
                    assert(key(p[k]) == key(p[i]));
                }
                if exists|k: int| 0 <= k < i && key(p[k]) == key(p[i]) {
                    let k = choose|k: int| 0 <= k < i && key(p[k]) == key(p[i]);
                    assert(key(s[k]) == key(s[i]));
                }
            }
        }
    }
}

/// Filtering by one test and then another keeps exactly what passes both, in
/// order; so the order of two filters does not matter.
pub proof fn lemma_filters_commute<A>(s: Seq<A>, f: spec_fn(A) -> bool, g: spec_fn(A) -> bool)
    ensures
        s.filter(f).filter(g) == s.filter(|x: A| f(x) && g(x)),
        s.filter(f).filter(g) == s.filter(g).filter(f),
    decreases s.len(),
{
    reveal_with_fuel(Seq::<_>::filter, 1);
    let both = |x: A| f(x) && g(x);
    let both2 = |x: A| g(x) && f(x);
    if s.len() > 0 {
        let p = s.drop_last();
        lemma_filters_commute(p, f, g);
        lemma_filters_commute(p, g, f);
        assert(p.filter(both) =~= p.filter(both2)) by {
            lemma_filter_same_test(p, both, both2);
        }
        if f(s.last()) {
            assert(s.filter(f) =~= p.filter(f).push(s.last()));
            assert(s.filter(f).drop_last() =~= p.filter(f));
        } else {
            assert(s.filter(f) =~= p.filter(f));
        }
        if g(s.last()) {
            assert(s.filter(g) =~= p.filter(g).push(s.last()));
            assert(s.filter(g).drop_last() =~= p.filter(g));
        } else {
            assert(s.filter(g) =~= p.filter(g));
        }
    }
    assert(s.filter(both) =~= s.filter(both2)) by {
        lemma_filter_same_test(s, both, both2);
    }
}

/// Filters by tests that agree everywhere keep the same elements.
proof fn lemma_filter_same_test<A>(s: Seq<A>, f: spec_fn(A) -> bool, g: spec_fn(A) -> bool)
    requires
        forall|x: A| #[trigger] f(x) == g(x),
    ensures
        s.filter(f) == s.filter(g),
{
    assert(f =~= g);
}

} // verus!
