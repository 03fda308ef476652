//! Sequences as multisets under a map applied to every element.

use vstd::prelude::*;
use vstd::multiset::*;
use vstd::relations::injective;
use vstd::seq_lib::*;

verus! {

/// Two sequences with the same elements, each as often, still have the
/// same elements, each as often, after one function is applied to all.
pub proof fn lemma_map_same_multiset<A, B>(a: Seq<A>, b: Seq<A>, f: spec_fn(A) -> B)
    requires
        a.to_multiset() == b.to_multiset(),
    ensures
        a.map_values(f).to_multiset() == b.map_values(f).to_multiset(),
    decreases a.len(),
{
    broadcast use group_to_multiset_ensures;
    broadcast use group_multiset_axioms;

    if a.len() == 0 {
        assert(a.to_multiset().len() == a.len());
        assert(b.to_multiset().len() == b.len());
        assert(a.map_values(f) =~= b.map_values(f));
    } else {
        let x = a.last();
        let a1 = a.drop_last();
        assert(a =~= a1.push(x));
        assert(a.contains(x));
        assert(a.to_multiset().count(x) > 0);
        assert(b.to_multiset().count(x) > 0);
        assert(b.contains(x));
        let j = choose|j: int| 0 <= j < b.len() && b[j] == x;
        let b1 = b.remove(j);
        assert(a1.to_multiset() =~= b1.to_multiset());
        lemma_map_same_multiset(a1, b1, f);
        assert(a.map_values(f) =~= a1.map_values(f).push(f(x)));
        assert(b.map_values(f) =~= b1.map_values(f).insert(j, f(x)));
        assert(a.map_values(f).to_multiset() =~= b.map_values(f).to_multiset());
    }
}

/// Where a function that tells its arguments apart gives two sequences the
/// same elements, each as often, the sequences had them already.
pub proof fn lemma_map_injective_multiset<A, B>(a: Seq<A>, b: Seq<A>, f: spec_fn(A) -> B)
    requires
        injective(f),
        a.map_values(f).to_multiset() == b.map_values(f).to_multiset(),
    ensures
        a.to_multiset() == b.to_multiset(),
    decreases a.len(),
{
    broadcast use group_to_multiset_ensures;
    broadcast use group_multiset_axioms;

    let fa = a.map_values(f);
    let fb = b.map_values(f);
    if a.len() == 0 {
        assert(fa.to_multiset().len() == fa.len());
        assert(fb.to_multiset().len() == fb.len());
        assert(a =~= b);
    } else {
        let x = a.last();
        let a1 = a.drop_last();
        assert(a =~= a1.push(x));
        assert(fa[a.len() - 1] == f(x));
        assert(fa.contains(f(x)));
        assert(fa.to_multiset().count(f(x)) > 0);
        assert(fb.to_multiset().count(f(x)) > 0);
        assert(fb.contains(f(x)));
        let j = choose|j: int| 0 <= j < fb.len() && fb[j] == f(x);
        assert(f(b[j]) == f(x));
        assert(b[j] == x);
        let b1 = b.remove(j);
        assert(fa =~= a1.map_values(f).push(f(x)));
        assert(fb =~= b1.map_values(f).insert(j, f(x)));
        assert(b =~= b1.insert(j, x));
        assert(a1.map_values(f).to_multiset() =~= b1.map_values(f).to_multiset()) by {
            assert(fa.to_multiset() == a1.map_values(f).to_multiset().insert(f(x)));
            assert(fb.to_multiset() == b1.map_values(f).to_multiset().insert(f(x)));
            assert forall|y: B|
                a1.map_values(f).to_multiset().count(y) == b1.map_values(f).to_multiset().count(
                    y,
                ) by {
                assert(fa.to_multiset().count(y) == fb.to_multiset().count(y));
            }
        }
        lemma_map_injective_multiset(a1, b1, f);
        assert(a.to_multiset() =~= b.to_multiset());
    }
}

/// Replacing one element of a sequence by a different one leaves the
/// sequence with one occurrence less of the element replaced.
pub proof fn lemma_update_drops_one<A>(s: Seq<A>, i: int, x: A)
    requires
        0 <= i < s.len(),
        x != s[i],
    ensures
        s.update(i, x).to_multiset().count(s[i]) == s.to_multiset().count(s[i]) - 1,
        s.update(i, x).to_multiset() != s.to_multiset(),
{
    broadcast use group_to_multiset_ensures;
    broadcast use group_multiset_axioms;

    assert(s.contains(s[i]));
    assert(s.to_multiset().count(s[i]) > 0);
}

/// A filtered sequence has each element that passes the filter as often
/// as the sequence has it, and no other element.
pub proof fn lemma_filter_count<A>(s: Seq<A>, pred: spec_fn(A) -> bool, x: A)
    ensures
        s.filter(pred).to_multiset().count(x) == if pred(x) {
            s.to_multiset().count(x)
        } else {
            0
        },
    decreases s.len(),
{
    broadcast use group_to_multiset_ensures;
    broadcast use group_multiset_axioms;

    reveal(Seq::filter);
    if s.len() == 0 {
        assert(s.to_multiset().count(x) == 0) by {
            assert(!s.contains(x));
        }
    } else {
        let front = s.drop_last();
        lemma_filter_count(front, pred, x);
        assert(s =~= front.push(s.last()));
        assert(s.to_multiset() == front.to_multiset().insert(s.last()));
        if pred(s.last()) {
            assert(s.filter(pred) == front.filter(pred).push(s.last()));
        } else {
            assert(s.filter(pred) == front.filter(pred));
        }
    }
}

} // verus!
