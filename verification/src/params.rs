//! Normalization of request parameters: encode, sort, join.

use vstd::prelude::*;
use vstd::relations::*;
use vstd::seq_lib::*;
use crate::encode::{
    is_encoded_char, is_encoded_text, lemma_percent_encoded_injective,
    lemma_percent_encoded_is_encoded_text, percent_encode, percent_encoded,
};
use crate::order::{lemma_pair_order_total, pair_le, pair_le_exec, pair_order, Pair};
use crate::permute::{lemma_map_injective_multiset, lemma_map_same_multiset};

verus! {

/// The parameters as pairs of texts.
pub open spec fn texts(params: Seq<(String, String)>) -> Seq<Pair> {
    params.map_values(|p: (String, String)| (p.0@, p.1@))
}

/// A pair with its name and its value percent-encoded, each on its own.
pub open spec fn encoded_pair(p: Pair) -> Pair {
    (percent_encoded(p.0), percent_encoded(p.1))
}

/// Every pair encoded, in the order given.
pub open spec fn encoded_pairs(params: Seq<Pair>) -> Seq<Pair> {
    params.map_values(|p: Pair| encoded_pair(p))
}

/// One pair written as `name=value`.
pub open spec fn pair_text(p: Pair) -> Seq<char> {
    (p.0 + seq!['=']) + p.1
}

/// The pairs written as `name=value` and joined by `&`.
pub open spec fn joined(pairs: Seq<Pair>) -> Seq<char>
    decreases pairs.len(),
{
    if pairs.len() == 0 {
        Seq::empty()
    } else if pairs.len() == 1 {
        pair_text(pairs[0])
    } else {
        (joined(pairs.drop_last()) + seq!['&']) + pair_text(pairs.last())
    }
}

/// The encoded pairs in ascending order; equal pairs all stay.
pub open spec fn sorted_encoded(params: Seq<Pair>) -> Seq<Pair> {
    encoded_pairs(params).sort_by(pair_order())
}

/// The normalized parameter string: every name and value encoded, the
/// pairs sorted by name and then by value, and joined.
pub open spec fn normalized(params: Seq<Pair>) -> Seq<char> {
    joined(sorted_encoded(params))
}

/// The sorted pairs are the encoded pairs, each as often as it was given,
/// in ascending order by name and then by value.
pub proof fn lemma_sorted_encoded(params: Seq<Pair>)
    ensures
        sorted_by(sorted_encoded(params), pair_order()),
        sorted_encoded(params).to_multiset() == encoded_pairs(params).to_multiset(),
        sorted_encoded(params).len() == params.len(),
{
    broadcast use group_to_multiset_ensures;

    lemma_pair_order_total();
    encoded_pairs(params).lemma_sort_by_ensures(pair_order());
    assert(sorted_encoded(params).to_multiset().len() == sorted_encoded(params).len());
    assert(encoded_pairs(params).to_multiset().len() == encoded_pairs(params).len());
}

/// The order in which parameters are given does not matter: two sequences
/// with the same pairs, each as often, have the same normalized form.
pub proof fn lemma_normalized_permutation(a: Seq<Pair>, b: Seq<Pair>)
    requires
        a.to_multiset() == b.to_multiset(),
    ensures
        sorted_encoded(a) == sorted_encoded(b),
        normalized(a) == normalized(b),
{
    lemma_map_same_multiset(a, b, |p: Pair| encoded_pair(p));
    lemma_sorted_encoded(a);
    lemma_sorted_encoded(b);
    lemma_pair_order_total();
    lemma_sorted_unique(sorted_encoded(a), sorted_encoded(b), pair_order());
}

/// A pair of texts that hold only unreserved characters and `%`.
pub open spec fn is_encoded_pair(p: Pair) -> bool {
    is_encoded_text(p.0) && is_encoded_text(p.1)
}

/// Every pair of the sequence holds only unreserved characters and `%`.
pub open spec fn all_encoded(pairs: Seq<Pair>) -> bool {
    forall|i: int| 0 <= i < pairs.len() ==> is_encoded_pair(#[trigger] pairs[i])
}

/// A text that ends in a separator and a part without one can be taken
/// apart in one way only.
pub proof fn lemma_split_last(
    x1: Seq<char>,
    y1: Seq<char>,
    x2: Seq<char>,
    y2: Seq<char>,
    sep: char,
)
    requires
        (x1 + seq![sep]) + y1 == (x2 + seq![sep]) + y2,
        !y1.contains(sep),
        !y2.contains(sep),
    ensures
        x1 == x2,
        y1 == y2,
{
    let l = (x1 + seq![sep]) + y1;
    let r = (x2 + seq![sep]) + y2;
    assert(l.len() == x1.len() + 1 + y1.len());
    assert(r.len() == x2.len() + 1 + y2.len());
    assert(l[x1.len() as int] == sep);
    assert(r[x2.len() as int] == sep);
    if x1.len() < x2.len() {
        assert(l[x2.len() as int] == y1[x2.len() - x1.len() - 1]);
        assert(y1.contains(sep));
    } else if x2.len() < x1.len() {
        assert(r[x1.len() as int] == y2[x1.len() - x2.len() - 1]);
        assert(y2.contains(sep));
    }
    assert(x1 =~= l.take(x1.len() as int));
    assert(x2 =~= r.take(x2.len() as int));
    assert(y1 =~= l.skip(x1.len() as int + 1));
    assert(y2 =~= r.skip(x2.len() as int + 1));
}

/// An encoded text holds neither `&` nor `=`.
pub proof fn lemma_encoded_text_has_no_separator(text: Seq<char>)
    requires
        is_encoded_text(text),
    ensures
        !text.contains('&'),
        !text.contains('='),
{
    assert(!is_encoded_char('&'));
    assert(!is_encoded_char('='));
}

/// An encoded pair written as `name=value` holds no `&`, and is written
/// so by no other encoded pair.
pub proof fn lemma_pair_text_injective(p: Pair, q: Pair)
    requires
        is_encoded_pair(p),
        is_encoded_pair(q),
    ensures
        !pair_text(p).contains('&'),
        pair_text(p).len() > 0,
        pair_text(p) == pair_text(q) ==> p == q,
{
    lemma_encoded_text_has_no_separator(p.0);
    lemma_encoded_text_has_no_separator(p.1);
    lemma_encoded_text_has_no_separator(q.0);
    lemma_encoded_text_has_no_separator(q.1);
    assert(!is_encoded_char('&'));
    let t = pair_text(p);
    assert forall|i: int| 0 <= i < t.len() implies t[i] != '&' by {
        if i < p.0.len() {
            assert(t[i] == p.0[i]);
        } else if i > p.0.len() {
            assert(t[i] == p.1[i - p.0.len() - 1]);
        }
    }
    if pair_text(p) == pair_text(q) {
        lemma_split_last(p.0, p.1, q.0, q.1, '=');
    }
}

/// The joined text of encoded pairs holds `&` exactly when there are two
/// pairs or more, and is empty exactly when there is none.
pub proof fn lemma_joined_shape(pairs: Seq<Pair>)
    requires
        all_encoded(pairs),
    ensures
        pairs.len() == 0 <==> joined(pairs).len() == 0,
        pairs.len() >= 2 <==> joined(pairs).contains('&'),
{
    if pairs.len() == 1 {
        lemma_pair_text_injective(pairs[0], pairs[0]);
    } else if pairs.len() >= 2 {
        let head = joined(pairs.drop_last());
        let t = joined(pairs);
        assert(t[head.len() as int] == '&');
    }
}

/// Sequences of encoded pairs with the same joined text are the same.
pub proof fn lemma_joined_injective(a: Seq<Pair>, b: Seq<Pair>)
    requires
        all_encoded(a),
        all_encoded(b),
        joined(a) == joined(b),
    ensures
        a == b,
    decreases a.len(),
{
    lemma_joined_shape(a);
    lemma_joined_shape(b);
    if a.len() == 0 {
        assert(a =~= b);
    } else if a.len() == 1 {
        lemma_pair_text_injective(a[0], b[0]);
        assert(a =~= b);
    } else {
        let a1 = a.drop_last();
        let b1 = b.drop_last();
        lemma_pair_text_injective(a.last(), b.last());
        lemma_pair_text_injective(b.last(), a.last());
        lemma_split_last(joined(a1), pair_text(a.last()), joined(b1), pair_text(b.last()), '&');
        assert(all_encoded(a1)) by {
            assert forall|i: int| 0 <= i < a1.len() implies is_encoded_pair(#[trigger] a1[i]) by {
                assert(a1[i] == a[i]);
            }
        }
        assert(all_encoded(b1)) by {
            assert forall|i: int| 0 <= i < b1.len() implies is_encoded_pair(#[trigger] b1[i]) by {
                assert(b1[i] == b[i]);
            }
        }
        lemma_joined_injective(a1, b1);
        assert(a =~= a1.push(a.last()));
        assert(b =~= b1.push(b.last()));
    }
}

/// The sorted encoded pairs of any parameters are encoded pairs.
pub proof fn lemma_sorted_encoded_all_encoded(params: Seq<Pair>)
    ensures
        all_encoded(sorted_encoded(params)),
{
    broadcast use group_to_multiset_ensures;

    lemma_sorted_encoded(params);
    let s = sorted_encoded(params);
    let e = encoded_pairs(params);
    assert forall|i: int| 0 <= i < s.len() implies is_encoded_pair(#[trigger] s[i]) by {
        assert(s.contains(s[i]));
        assert(s.to_multiset().count(s[i]) > 0);
        assert(e.to_multiset().count(s[i]) > 0);
        assert(e.contains(s[i]));
        let j = choose|j: int| 0 <= j < e.len() && e[j] == s[i];
        lemma_percent_encoded_is_encoded_text(params[j].0);
        lemma_percent_encoded_is_encoded_text(params[j].1);
    }
}

/// Normalization loses nothing but the order: parameters with the same
/// normalized form are the same pairs, each as often.
pub proof fn lemma_normalized_injective(a: Seq<Pair>, b: Seq<Pair>)
    requires
        normalized(a) == normalized(b),
    ensures
        a.to_multiset() == b.to_multiset(),
{
    lemma_sorted_encoded_all_encoded(a);
    lemma_sorted_encoded_all_encoded(b);
    lemma_joined_injective(sorted_encoded(a), sorted_encoded(b));
    lemma_sorted_encoded(a);
    lemma_sorted_encoded(b);
    let f = |p: Pair| encoded_pair(p);
    assert(injective(f)) by {
        assert forall|p: Pair, q: Pair| #[trigger] f(p) == #[trigger] f(q) implies p == q by {
            lemma_percent_encoded_injective(p.0, q.0);
            lemma_percent_encoded_injective(p.1, q.1);
        }
    }
    lemma_map_injective_multiset(a, b, f);
}

/// Encodes every pair and returns them in ascending order.
pub fn sort_encoded(params: &[(String, String)]) -> (out: Vec<(String, String)>)
    ensures
        texts(out@) == sorted_encoded(texts(params@)),
        out@.len() == params@.len(),
{
    let ghost all = encoded_pairs(texts(params@));
    let mut out: Vec<(String, String)> = Vec::new();
    let mut i: usize = 0;
    proof {
        lemma_pair_order_total();
        assert(all.take(0) == texts(out@));
    }
    while i < params.len()
        invariant
            i <= params@.len(),
            all == encoded_pairs(texts(params@)),
            out@.len() == i,
            total_ordering(pair_order()),
            sorted_by(texts(out@), pair_order()),
            texts(out@).to_multiset() == all.take(i as int).to_multiset(),
        decreases params.len() - i,
    {
        let p = &params[i];
        let e = (percent_encode(p.0.as_str()), percent_encode(p.1.as_str()));
        let ghost ev: Pair = (e.0@, e.1@);
        let ghost before = texts(out@);
        let mut pos: usize = 0;
        while pos < out.len() && pair_le_exec(&out[pos], &e)
            invariant
                pos <= out@.len(),
                ev == (e.0@, e.1@),
                before == texts(out@),
                forall|k: int| 0 <= k < pos ==> pair_le(#[trigger] before[k], ev),
            decreases out.len() - pos,
        {
            pos += 1;
        }
        out.insert(pos, e);
        proof {
            let r = pair_order();
            let after = texts(out@);
            assert(after == before.insert(pos as int, ev));
            assert forall|a: int, b: int| 0 <= a < b < after.len() implies #[trigger] r(
                after[a],
                after[b],
            ) by {
                if b < pos {
                    assert(r(before[a], before[b]));
                } else if b == pos {
                    assert(pair_le(before[a], ev));
                } else if a < pos {
                    assert(r(before[a], before[b - 1]));
                } else if a == pos {
                    assert(!pair_le(before[pos as int], ev));
                    assert(r(before[pos as int], ev) || r(ev, before[pos as int]));
                    if b - 1 > pos {
                        assert(r(before[pos as int], before[b - 1]));
                    }
                    assert(r(ev, before[pos as int]) && r(before[pos as int], before[b - 1]) ==> r(
                        ev,
                        before[b - 1],
                    ));
                } else {
                    assert(r(before[a - 1], before[b - 1]));
                }
            }
            to_multiset_insert(before, pos as int, ev);
            assert(all.take(i + 1) == all.take(i as int).push(ev));
            to_multiset_build(all.take(i as int), ev);
        }
        i += 1;
    }
    proof {
        assert(all.take(i as int) == all);
        all.lemma_sort_by_ensures(pair_order());
        lemma_sorted_unique(texts(out@), all.sort_by(pair_order()), pair_order());
    }
    out
}

/// Writes the pairs as `name=value`, joined by `&`.
pub fn join_pairs(pairs: &[(String, String)]) -> (r: String)
    ensures
        r@ == joined(texts(pairs@)),
{
    let mut out = String::new();
    let mut i: usize = 0;
    let ghost all = texts(pairs@);
    while i < pairs.len()
        invariant
            i <= pairs@.len(),
            all == texts(pairs@),
            out@ == joined(all.take(i as int)),
        decreases pairs.len() - i,
    {
        if i > 0 {
            out.push('&');
        }
        let p = &pairs[i];
        out.append(p.0.as_str());
        out.push('=');
        out.append(p.1.as_str());
        proof {
            let next = all.take(i + 1);
            assert(next.drop_last() == all.take(i as int));
            assert(next.last() == (p.0@, p.1@));
        }
        i += 1;
    }
    proof {
        assert(all.take(i as int) == all);
    }
    out
}

/// Normalizes request parameters: encodes every name and value, sorts the
/// pairs by encoded name and then by encoded value, and joins them as
/// `name=value` with `&` between.
pub fn normalize_parameters(params: &[(String, String)]) -> (r: String)
    ensures
        r@ == normalized(texts(params@)),
{
    let sorted = sort_encoded(params);
    join_pairs(sorted.as_slice())
}

} // verus!
