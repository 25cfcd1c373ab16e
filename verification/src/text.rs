//! Text helpers: the characters of a string, and the order in which labels
//! are listed (by code point, as `String`'s `Ord` orders UTF-8 text).
use vstd::prelude::*;
use vstd::relations::{sorted_by, total_ordering};
use vstd::string::StringExecFns;

verus! {

broadcast use vstd::string::axiom_spec_iter;

/// The characters of `s`, in order.
pub fn chars_of(s: &str) -> (r: Vec<char>)
    ensures
        r@ == s@,
{
    let mut r: Vec<char> = Vec::new();
    for c in it: s.chars()
        invariant
            r@ == it.seq().take(it.index() as int),
            it.seq() == s@,
    {
        r.push(c);
    }
    r
}

/// `a` comes no later than `b`: lexicographically by code point, a prefix
/// first.
pub open spec fn lex_le(a: Seq<char>, b: Seq<char>) -> bool
    decreases a.len(),
{
    if a.len() == 0 {
        true
    } else if b.len() == 0 {
        false
    } else if a[0] != b[0] {
        a[0] < b[0]
    } else {
        lex_le(a.drop_first(), b.drop_first())
    }
}

/// The order of labels, as a relation.
pub open spec fn label_order() -> spec_fn(Seq<char>, Seq<char>) -> bool {
    |a: Seq<char>, b: Seq<char>| lex_le(a, b)
}

pub proof fn lemma_lex_reflexive(a: Seq<char>)
    ensures
        lex_le(a, a),
    decreases a.len(),
{
    if a.len() > 0 {
        lemma_lex_reflexive(a.drop_first());
    }
}

pub proof fn lemma_lex_antisymmetric(a: Seq<char>, b: Seq<char>)
    requires
        lex_le(a, b),
        lex_le(b, a),
    ensures
        a == b,
    decreases a.len(),
{
    if a.len() > 0 && b.len() > 0 {
        if a[0] == b[0] {
            lemma_lex_antisymmetric(a.drop_first(), b.drop_first());
            assert(a =~= seq![a[0]] + a.drop_first());
            assert(b =~= seq![b[0]] + b.drop_first());
        } else {
        }
    } else {
        assert(a =~= b);
    }
}

pub proof fn lemma_lex_transitive(a: Seq<char>, b: Seq<char>, c: Seq<char>)
    requires
        lex_le(a, b),
        lex_le(b, c),
    ensures
        lex_le(a, c),
    decreases a.len(),
{
    if a.len() > 0 && b.len() > 0 && c.len() > 0 {
        if a[0] == b[0] && b[0] == c[0] {
            lemma_lex_transitive(a.drop_first(), b.drop_first(), c.drop_first());
        }
    }
}

pub proof fn lemma_lex_total(a: Seq<char>, b: Seq<char>)
    ensures
        lex_le(a, b) || lex_le(b, a),
    decreases a.len(),
{
    if a.len() > 0 && b.len() > 0 && a[0] == b[0] {
        lemma_lex_total(a.drop_first(), b.drop_first());
    }
}

/// The label order is a total order.
pub proof fn lemma_label_order_total()
    ensures
        total_ordering(label_order()),
{
    let r = label_order();
    assert forall|x: Seq<char>| #[trigger] r(x, x) by {
        lemma_lex_reflexive(x);
    }
    assert forall|x: Seq<char>, y: Seq<char>| #[trigger] r(x, y) && #[trigger] r(y, x) implies x == y by {
        lemma_lex_antisymmetric(x, y);
    }
    assert forall|x: Seq<char>, y: Seq<char>, z: Seq<char>| #[trigger] r(x, y) && #[trigger] r(y, z) implies r(x, z) by {
        lemma_lex_transitive(x, y, z);
    }
    assert forall|x: Seq<char>, y: Seq<char>| #[trigger] r(x, y) || #[trigger] r(y, x) by {
        lemma_lex_total(x, y);
    }
}

/// Comparing past an equal character compares what follows it.
proof fn lemma_lex_skip(a: Seq<char>, b: Seq<char>, i: int)
    requires
        0 <= i < a.len(),
        i < b.len(),
        a[i] == b[i],
    ensures
        lex_le(a.skip(i), b.skip(i)) == lex_le(a.skip(i + 1), b.skip(i + 1)),
{
    assert(a.skip(i).drop_first() =~= a.skip(i + 1));
    assert(b.skip(i).drop_first() =~= b.skip(i + 1));
}

/// Whether `a` comes no later than `b` in the label order.
pub fn chars_le(a: &Vec<char>, b: &Vec<char>) -> (r: bool)
    ensures
        r == lex_le(a@, b@),
{
    let mut i: usize = 0;
    proof {
        assert(a@.skip(0) =~= a@);
        assert(b@.skip(0) =~= b@);
    }
    while i < a.len() && i < b.len()
        invariant
            i <= a@.len(),
            i <= b@.len(),
            lex_le(a@, b@) == lex_le(a@.skip(i as int), b@.skip(i as int)),
        decreases a@.len() - i,
    {
        if a[i] != b[i] {
            proof {
                assert(a@.skip(i as int)[0] == a@[i as int]);
                assert(b@.skip(i as int)[0] == b@[i as int]);
            }
            return a[i] < b[i];
        }
        proof {
            lemma_lex_skip(a@, b@, i as int);
        }
        i = i + 1;
    }
    proof {
        if i == a@.len() {
            assert(a@.skip(i as int).len() == 0);
        } else {
            assert(b@.skip(i as int).len() == 0);
        }
    }
    i == a.len()
}

/// Whether the label `a` comes no later than the label `b`.
pub fn label_le(a: &String, b: &String) -> (r: bool)
    ensures
        r == lex_le(a@, b@),
{
    let ca = chars_of(a.as_str());
    let cb = chars_of(b.as_str());
    chars_le(&ca, &cb)
}

/// The labels of a list of strings.
pub open spec fn texts(v: Seq<String>) -> Seq<Seq<char>> {
    v.map_values(|s: String| s@)
}

/// Sorts labels into the label order, keeping duplicates.
pub fn sort_labels(v: Vec<String>) -> (r: Vec<String>)
    ensures
        texts(r@) == texts(v@).sort_by(label_order()),
{
    let ghost all = v@;
    let mut rest = v;
    let mut out: Vec<String> = Vec::new();
    proof {
        lemma_label_order_total();
        assert(texts(out@) =~= Seq::empty());
        assert(texts(all.skip(rest@.len() as int)) =~= Seq::empty());
    }
    while rest.len() > 0
        invariant
            rest@ == all.take(rest@.len() as int),
            rest@.len() <= all.len(),
            sorted_by(texts(out@), label_order()),
            texts(out@).to_multiset() == texts(all.skip(rest@.len() as int)).to_multiset(),
            total_ordering(label_order()),
        decreases rest@.len(),
    {
        let ghost n = rest@.len();
        let x = rest.pop().unwrap();
        proof {
            assert(rest@ =~= all.take(rest@.len() as int));
        }
        let mut k: usize = 0;
        while k < out.len() && label_le(&out[k], &x)
            invariant
                k <= out@.len(),
                forall|j: int| 0 <= j < k ==> lex_le(texts(out@)[j], x@),
            decreases out@.len() - k,
        {
            k = k + 1;
        }
        let ghost before = texts(out@);
        out.insert(k, x);
        proof {
            let now = texts(out@);
            assert(now =~= before.insert(k as int, x@));
            let leq = label_order();
            assert forall|i: int, j: int| 0 <= i < j < now.len() implies #[trigger] leq(now[i], now[j]) by {
                if j < k {
                    assert(leq(before[i], before[j]));
                } else if j == k {
                    assert(lex_le(before[i], x@));
                } else if i == k {
                    assert(!lex_le(before[k as int], x@));
                    assert(leq(x@, before[k as int]) || leq(before[k as int], x@));
                    if j - 1 > k {
                        assert(leq(before[k as int], before[j - 1]));
                    }
                } else if i < k {
                    assert(leq(before[i], before[j - 1]));
                } else {
                    assert(leq(before[i - 1], before[j - 1]));
                }
            }
            broadcast use vstd::seq_lib::group_to_multiset_ensures;
            vstd::seq_lib::to_multiset_insert(before, k as int, x@);
            assert(texts(all.skip(rest@.len() as int)) =~= seq![x@] + texts(all.skip(n as int)));
            assert(texts(all.skip(rest@.len() as int)).to_multiset() =~= texts(all.skip(n as int)).to_multiset().insert(x@)) by {
                vstd::seq_lib::lemma_multiset_commutative(seq![x@], texts(all.skip(n as int)));
                assert(seq![x@] =~= Seq::<Seq<char>>::empty().push(x@));
            }
        }
    }
    proof {
        assert(all.skip(0) =~= all);
        texts(all).lemma_sort_by_ensures(label_order());
        vstd::seq_lib::lemma_sorted_unique(texts(out@), texts(all).sort_by(label_order()), label_order());
    }
    out
}

} // verus!
