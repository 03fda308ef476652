//! The byte-wise order of texts and of name and value pairs.

use vstd::prelude::*;
use vstd::relations::*;
use vstd::utf8::*;

verus! {

/// A name and a value, as texts.
pub type Pair = (Seq<char>, Seq<char>);

/// Lexicographic order of byte sequences: a proper prefix comes first, and
/// otherwise the first byte that differs decides.
pub open spec fn bytes_le(a: Seq<u8>, b: Seq<u8>) -> bool
    decreases a.len(),
{
    if a.len() == 0 {
        true
    } else if b.len() == 0 {
        false
    } else if a[0] == b[0] {
        bytes_le(a.drop_first(), b.drop_first())
    } else {
        a[0] < b[0]
    }
}

/// Texts are ordered by their UTF-8 bytes.
pub open spec fn text_le(a: Seq<char>, b: Seq<char>) -> bool {
    bytes_le(encode_utf8(a), encode_utf8(b))
}

/// Pairs are ordered by name, and pairs of one name by value.
pub open spec fn pair_le(a: Pair, b: Pair) -> bool {
    if a.0 == b.0 {
        text_le(a.1, b.1)
    } else {
        text_le(a.0, b.0)
    }
}

/// The order of pairs as a relation, for sorting.
pub open spec fn pair_order() -> spec_fn(Pair, Pair) -> bool {
    |a: Pair, b: Pair| pair_le(a, b)
}

pub proof fn lemma_bytes_le_reflexive(a: Seq<u8>)
    ensures
        bytes_le(a, a),
    decreases a.len(),
{
    if a.len() > 0 {
        lemma_bytes_le_reflexive(a.drop_first());
    }
}

pub proof fn lemma_bytes_le_antisymmetric(a: Seq<u8>, b: Seq<u8>)
    requires
        bytes_le(a, b),
        bytes_le(b, a),
    ensures
        a == b,
    decreases a.len(),
{
    if a.len() > 0 {
        lemma_bytes_le_antisymmetric(a.drop_first(), b.drop_first());
        assert(a == seq![a[0]] + a.drop_first());
        assert(b == seq![b[0]] + b.drop_first());
    } else {
        assert(a == b);
    }
}

pub proof fn lemma_bytes_le_transitive(a: Seq<u8>, b: Seq<u8>, c: Seq<u8>)
    requires
        bytes_le(a, b),
        bytes_le(b, c),
    ensures
        bytes_le(a, c),
    decreases a.len(),
{
    if a.len() > 0 && a[0] == b[0] && b[0] == c[0] {
        lemma_bytes_le_transitive(a.drop_first(), b.drop_first(), c.drop_first());
    }
}

pub proof fn lemma_bytes_le_connected(a: Seq<u8>, b: Seq<u8>)
    ensures
        bytes_le(a, b) || bytes_le(b, a),
    decreases a.len(),
{
    if a.len() > 0 && b.len() > 0 && a[0] == b[0] {
        lemma_bytes_le_connected(a.drop_first(), b.drop_first());
    }
}

/// Two texts with the same UTF-8 bytes are the same text.
pub proof fn lemma_utf8_injective(a: Seq<char>, b: Seq<char>)
    requires
        encode_utf8(a) == encode_utf8(b),
    ensures
        a == b,
{
    encode_utf8_decode_utf8(a);
    encode_utf8_decode_utf8(b);
}

/// The order of pairs is total: reflexive, antisymmetric, transitive, and
/// any two pairs are comparable.
pub proof fn lemma_pair_order_total()
    ensures
        total_ordering(pair_order()),
{
    let r = pair_order();
    assert forall|x: Pair| #[trigger] r(x, x) by {
        lemma_bytes_le_reflexive(encode_utf8(x.1));
    }
    assert forall|x: Pair, y: Pair| #[trigger] r(x, y) && #[trigger] r(y, x) implies x == y by {
        if x.0 == y.0 {
            lemma_bytes_le_antisymmetric(encode_utf8(x.1), encode_utf8(y.1));
            lemma_utf8_injective(x.1, y.1);
        } else {
            lemma_bytes_le_antisymmetric(encode_utf8(x.0), encode_utf8(y.0));
            lemma_utf8_injective(x.0, y.0);
        }
    }
    assert forall|x: Pair, y: Pair, z: Pair| #[trigger] r(x, y) && #[trigger] r(y, z) implies r(
        x,
        z,
    ) by {
        if x.0 == y.0 && y.0 == z.0 {
            lemma_bytes_le_transitive(encode_utf8(x.1), encode_utf8(y.1), encode_utf8(z.1));
        } else if x.0 != y.0 && y.0 != z.0 {
            lemma_bytes_le_transitive(encode_utf8(x.0), encode_utf8(y.0), encode_utf8(z.0));
            if x.0 == z.0 {
                lemma_bytes_le_antisymmetric(encode_utf8(x.0), encode_utf8(y.0));
                lemma_utf8_injective(x.0, y.0);
            }
        }
    }
    assert forall|x: Pair, y: Pair| #[trigger] r(x, y) || #[trigger] r(y, x) by {
        lemma_bytes_le_connected(encode_utf8(x.0), encode_utf8(y.0));
        lemma_bytes_le_connected(encode_utf8(x.1), encode_utf8(y.1));
    }
}

/// Skipping a common prefix does not change how two byte sequences compare.
pub proof fn lemma_bytes_le_skip(a: Seq<u8>, b: Seq<u8>, k: int)
    requires
        0 <= k <= a.len(),
        k <= b.len(),
        a.take(k) == b.take(k),
    ensures
        bytes_le(a, b) == bytes_le(a.skip(k), b.skip(k)),
    decreases k,
{
    if k == 0 {
        assert(a.skip(0) == a);
        assert(b.skip(0) == b);
    } else {
        assert(a[0] == a.take(k)[0]);
        assert(b[0] == b.take(k)[0]);
        let a1 = a.drop_first();
        let b1 = b.drop_first();
        assert(a1.take(k - 1) == a.take(k).drop_first());
        assert(b1.take(k - 1) == b.take(k).drop_first());
        lemma_bytes_le_skip(a1, b1, k - 1);
        assert(a1.skip(k - 1) == a.skip(k));
        assert(b1.skip(k - 1) == b.skip(k));
    }
}

/// Compares two byte strings lexicographically.
pub fn bytes_le_exec(a: &[u8], b: &[u8]) -> (r: bool)
    ensures
        r == bytes_le(a@, b@),
{
    let mut i: usize = 0;
    while i < a.len() && i < b.len()
        invariant
            i <= a@.len(),
            i <= b@.len(),
            a@.take(i as int) == b@.take(i as int),
        decreases a.len() - i,
    {
        if a[i] != b[i] {
            proof {
                lemma_bytes_le_skip(a@, b@, i as int);
            }
            return a[i] < b[i];
        }
        proof {
            assert(a@.take(i + 1) == a@.take(i as int).push(a@[i as int]));
            assert(b@.take(i + 1) == b@.take(i as int).push(b@[i as int]));
        }
        i += 1;
    }
    proof {
        lemma_bytes_le_skip(a@, b@, i as int);
    }
    i == a.len()
}

/// Tells whether the first pair comes before the second or equals it.
pub fn pair_le_exec(a: &(String, String), b: &(String, String)) -> (r: bool)
    ensures
        r == pair_le((a.0@, a.1@), (b.0@, b.1@)),
{
    let a0 = a.0.as_str().as_bytes();
    let b0 = b.0.as_str().as_bytes();
    if bytes_le_exec(a0, b0) {
        if bytes_le_exec(b0, a0) {
            proof {
                lemma_bytes_le_antisymmetric(a0@, b0@);
                lemma_utf8_injective(a.0@, b.0@);
            }
            bytes_le_exec(a.1.as_str().as_bytes(), b.1.as_str().as_bytes())
        } else {
            proof {
                if a.0@ == b.0@ {
                    lemma_bytes_le_reflexive(a0@);
                }
            }
            true
        }
    } else {
        proof {
            if a.0@ == b.0@ {
                lemma_bytes_le_reflexive(a0@);
            }
        }
        false
    }
}

} // verus!
