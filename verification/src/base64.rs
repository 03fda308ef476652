//! Base64 with the standard alphabet and `=` padding.

use vstd::prelude::*;

verus! {

/// The character of the standard alphabet for a value below sixty-four.
pub open spec fn sextet_char(v: u8) -> char {
    if v < 26 {
        (0x41 + v) as char
    } else if v < 52 {
        (0x47 + v) as char
    } else if v < 62 {
        (v - 4) as char
    } else if v == 62 {
        '+'
    } else {
        '/'
    }
}

/// Three bytes as four characters.
pub open spec fn full_group(a: u8, b: u8, c: u8) -> Seq<char> {
    seq![
        sextet_char(a / 4),
        sextet_char(((a % 4) * 16 + b / 16) as u8),
        sextet_char(((b % 16) * 4 + c / 64) as u8),
        sextet_char(c % 64),
    ]
}

/// The base64 text of a byte sequence: four characters for every three
/// bytes, the last group padded with `=` where bytes are missing.
pub open spec fn base64(bytes: Seq<u8>) -> Seq<char>
    decreases bytes.len(),
{
    if bytes.len() == 0 {
        Seq::empty()
    } else if bytes.len() == 1 {
        seq![sextet_char(bytes[0] / 4), sextet_char(((bytes[0] % 4) * 16) as u8), '=', '=']
    } else if bytes.len() == 2 {
        seq![
            sextet_char(bytes[0] / 4),
            sextet_char(((bytes[0] % 4) * 16 + bytes[1] / 16) as u8),
            sextet_char(((bytes[1] % 16) * 4) as u8),
            '=',
        ]
    } else {
        full_group(bytes[0], bytes[1], bytes[2]) + base64(bytes.skip(3))
    }
}

fn sextet(v: u8) -> (c: char)
    requires
        v < 64,
    ensures
        c == sextet_char(v),
{
    if v < 26 {
        (0x41u8 + v) as char
    } else if v < 52 {
        (0x47u8 + v) as char
    } else if v < 62 {
        (v - 4) as char
    } else if v == 62 {
        '+'
    } else {
        '/'
    }
}

/// Writes bytes as base64 text.
pub fn base64_encode(bytes: &[u8]) -> (r: String)
    ensures
        r@ == base64(bytes@),
{
    let mut out = String::new();
    let mut i: usize = 0;
    let n: usize = bytes.len();
    proof {
        assert(bytes@.skip(0) == bytes@);
    }
    while n - i >= 3
        invariant
            i <= n,
            n == bytes@.len(),
            out@ + base64(bytes@.skip(i as int)) == base64(bytes@),
        decreases n - i,
    {
        let a = bytes[i];
        let b = bytes[i + 1];
        let c = bytes[i + 2];
        proof {
            let rest = bytes@.skip(i as int);
            assert(rest.skip(3) == bytes@.skip(i + 3));
            assert(base64(rest) == full_group(a, b, c) + base64(rest.skip(3)));
        }
        let ghost before = out@;
        out.push(sextet(a / 4));
        out.push(sextet((a % 4) * 16 + b / 16));
        out.push(sextet((b % 16) * 4 + c / 64));
        out.push(sextet(c % 64));
        proof {
            assert(out@ == before + full_group(a, b, c));
        }
        i += 3;
    }
    let ghost rest = bytes@.skip(i as int);
    let ghost before = out@;
    if n - i == 1 {
        let a = bytes[i];
        out.push(sextet(a / 4));
        out.push(sextet((a % 4) * 16));
        out.push('=');
        out.push('=');
        assert(out@ == before + base64(rest));
    } else if n - i == 2 {
        let a = bytes[i];
        let b = bytes[i + 1];
        out.push(sextet(a / 4));
        out.push(sextet((a % 4) * 16 + b / 16));
        out.push(sextet((b % 16) * 4));
        out.push('=');
        assert(out@ == before + base64(rest));
    }
    out
}

/// Different values below sixty-four have different characters, and none
/// has the padding character.
pub proof fn lemma_sextet_char_injective(v: u8, w: u8)
    requires
        v < 64,
        w < 64,
    ensures
        sextet_char(v) == sextet_char(w) ==> v == w,
        sextet_char(v) != '=',
{
    lemma_sextet_char_code(v);
    lemma_sextet_char_code(w);
}

/// The number of the character for a value below sixty-four.
pub proof fn lemma_sextet_char_code(v: u8)
    requires
        v < 64,
    ensures
        sextet_char(v) as u32 == if v < 26 {
            0x41 + v
        } else if v < 52 {
            0x47 + v
        } else if v < 62 {
            v - 4
        } else if v == 62 {
            0x2B
        } else {
            0x2F
        },
{
}

/// Three bytes can be read back from their four characters.
pub proof fn lemma_full_group_injective(a: u8, b: u8, c: u8, x: u8, y: u8, z: u8)
    requires
        full_group(a, b, c) == full_group(x, y, z),
    ensures
        a == x,
        b == y,
        c == z,
{
    let l = full_group(a, b, c);
    let r = full_group(x, y, z);
    assert(l[0] == r[0] && l[1] == r[1] && l[2] == r[2] && l[3] == r[3]);
    lemma_sextet_char_injective(a / 4, x / 4);
    lemma_sextet_char_injective(((a % 4) * 16 + b / 16) as u8, ((x % 4) * 16 + y / 16) as u8);
    lemma_sextet_char_injective(((b % 16) * 4 + c / 64) as u8, ((y % 16) * 4 + z / 64) as u8);
    lemma_sextet_char_injective(c % 64, z % 64);
}

/// The text is four characters for every three bytes begun, and ends in
/// padding exactly when the last group is short: in `==` after one byte,
/// in one `=` after two.
pub proof fn lemma_base64_shape(bytes: Seq<u8>)
    ensures
        base64(bytes).len() == 4 * ((bytes.len() + 2) / 3),
        bytes.len() > 0 ==> {
            let text = base64(bytes);
            let n = text.len() as int;
            &&& bytes.len() % 3 == 1 ==> text[n - 2] == '=' && text[n - 1] == '='
            &&& bytes.len() % 3 == 2 ==> text[n - 2] != '=' && text[n - 1] == '='
            &&& bytes.len() % 3 == 0 ==> text[n - 2] != '=' && text[n - 1] != '='
        },
    decreases bytes.len(),
{
    if bytes.len() == 1 {
    } else if bytes.len() == 2 {
        lemma_sextet_char_injective(((bytes[1] % 16) * 4) as u8, 0);
    } else if bytes.len() >= 3 {
        let rest = bytes.skip(3);
        lemma_base64_shape(rest);
        let group = full_group(bytes[0], bytes[1], bytes[2]);
        let text = base64(bytes);
        assert(text == group + base64(rest));
        if rest.len() == 0 {
            lemma_sextet_char_injective(((bytes[1] % 16) * 4 + bytes[2] / 64) as u8, 0);
            lemma_sextet_char_injective(bytes[2] % 64, 0);
            assert(text[2] == group[2]);
            assert(text[3] == group[3]);
        } else {
            let n = text.len() as int;
            let m = base64(rest).len() as int;
            assert(text[n - 1] == base64(rest)[m - 1]);
            assert(text[n - 2] == base64(rest)[m - 2]);
        }
    }
}

/// Byte sequences with the same base64 text are the same.
pub proof fn lemma_base64_injective(a: Seq<u8>, b: Seq<u8>)
    requires
        base64(a) == base64(b),
    ensures
        a == b,
    decreases a.len(),
{
    lemma_base64_shape(a);
    lemma_base64_shape(b);
    if a.len() == 0 {
        assert(a =~= b);
    } else if a.len() == 1 {
        assert(b.len() == 1);
        let l = base64(a);
        let r = base64(b);
        assert(l[0] == r[0] && l[1] == r[1]);
        lemma_sextet_char_injective(a[0] / 4, b[0] / 4);
        lemma_sextet_char_injective(((a[0] % 4) * 16) as u8, ((b[0] % 4) * 16) as u8);
        assert(a =~= b);
    } else if a.len() == 2 {
        assert(b.len() == 2);
        let l = base64(a);
        let r = base64(b);
        assert(l[0] == r[0] && l[1] == r[1] && l[2] == r[2]);
        lemma_sextet_char_injective(a[0] / 4, b[0] / 4);
        lemma_sextet_char_injective(
            ((a[0] % 4) * 16 + a[1] / 16) as u8,
            ((b[0] % 4) * 16 + b[1] / 16) as u8,
        );
        lemma_sextet_char_injective(((a[1] % 16) * 4) as u8, ((b[1] % 16) * 4) as u8);
        assert(a =~= b);
    } else {
        assert(b.len() >= 3);
        let ga = full_group(a[0], a[1], a[2]);
        let gb = full_group(b[0], b[1], b[2]);
        let l = ga + base64(a.skip(3));
        let r = gb + base64(b.skip(3));
        assert(l == r);
        assert(ga =~= l.take(4));
        assert(gb =~= r.take(4));
        assert(base64(a.skip(3)) =~= l.skip(4));
        assert(base64(b.skip(3)) =~= r.skip(4));
        lemma_full_group_injective(a[0], a[1], a[2], b[0], b[1], b[2]);
        lemma_base64_injective(a.skip(3), b.skip(3));
        assert(a =~= seq![a[0], a[1], a[2]] + a.skip(3));
        assert(b =~= seq![b[0], b[1], b[2]] + b.skip(3));
    }
}

} // verus!
