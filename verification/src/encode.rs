//! Percent-encoding with the unreserved set of RFC 3986.

use vstd::prelude::*;
use vstd::utf8::*;

verus! {

/// The bytes that pass through unchanged: ASCII letters, digits, `-`, `.`,
/// `_` and `~`.
pub open spec fn is_unreserved(b: u8) -> bool {
    ||| 0x41 <= b <= 0x5A
    ||| 0x61 <= b <= 0x7A
    ||| 0x30 <= b <= 0x39
    ||| b == 0x2D
    ||| b == 0x2E
    ||| b == 0x5F
    ||| b == 0x7E
}

/// The upper-case hexadecimal digit for a value below sixteen.
pub open spec fn hex_digit(n: u8) -> char {
    if n < 10 {
        (0x30 + n) as char
    } else {
        (0x37 + n) as char
    }
}

/// What one byte becomes: itself when unreserved, else `%` and two digits.
pub open spec fn encode_byte(b: u8) -> Seq<char> {
    if is_unreserved(b) {
        seq![b as char]
    } else {
        seq!['%', hex_digit(b / 16), hex_digit(b % 16)]
    }
}

/// The encodings of the bytes, one after the other.
pub open spec fn encode_bytes(bytes: Seq<u8>) -> Seq<char>
    decreases bytes.len(),
{
    if bytes.len() == 0 {
        Seq::empty()
    } else {
        encode_bytes(bytes.drop_last()) + encode_byte(bytes.last())
    }
}

/// The percent-encoded form of a text: the encoding of its UTF-8 bytes.
pub open spec fn percent_encoded(text: Seq<char>) -> Seq<char> {
    encode_bytes(encode_utf8(text))
}

/// A character that an encoded text may hold: an unreserved one or `%`.
pub open spec fn is_encoded_char(c: char) -> bool {
    c == '%' || (c as u32 <= 0x7F && is_unreserved(c as u8))
}

/// Every character of the text is unreserved or `%`.
pub open spec fn is_encoded_text(text: Seq<char>) -> bool {
    forall|i: int| 0 <= i < text.len() ==> is_encoded_char(#[trigger] text[i])
}

/// Every character of the text is unreserved.
pub open spec fn is_unreserved_text(text: Seq<char>) -> bool {
    forall|i: int|
        0 <= i < text.len() ==> (#[trigger] text[i]) as u32 <= 0x7F && is_unreserved(text[i] as u8)
}

/// Every byte of the sequence is unreserved.
pub open spec fn all_unreserved(bytes: Seq<u8>) -> bool {
    forall|i: int| 0 <= i < bytes.len() ==> is_unreserved(#[trigger] bytes[i])
}

fn hex_digit_of(n: u8) -> (c: char)
    requires
        n < 16,
    ensures
        c == hex_digit(n),
{
    if n < 10 {
        (0x30u8 + n) as char
    } else {
        (0x37u8 + n) as char
    }
}

fn unreserved(b: u8) -> (r: bool)
    ensures
        r == is_unreserved(b),
{
    (0x41 <= b && b <= 0x5A) || (0x61 <= b && b <= 0x7A) || (0x30 <= b && b <= 0x39) || b == 0x2D
        || b == 0x2E || b == 0x5F || b == 0x7E
}

/// The encoding of any byte sequence holds only unreserved characters and `%`.
pub proof fn lemma_encode_bytes_is_encoded_text(bytes: Seq<u8>)
    ensures
        is_encoded_text(encode_bytes(bytes)),
    decreases bytes.len(),
{
    if bytes.len() > 0 {
        lemma_encode_bytes_is_encoded_text(bytes.drop_last());
        let b = bytes.last();
        assert(forall|i: int|
            0 <= i < encode_byte(b).len() ==> is_encoded_char(#[trigger] encode_byte(b)[i]));
    }
}

/// Percent-encodes a text: unreserved characters stay, every other byte of
/// the text's UTF-8 form becomes `%` and two upper-case hexadecimal digits.
pub fn percent_encode(text: &str) -> (r: String)
    ensures
        r@ == percent_encoded(text@),
        is_encoded_text(r@),
{
    let bytes = text.as_bytes();
    let mut out = String::new();
    let mut i: usize = 0;
    while i < bytes.len()
        invariant
            i <= bytes@.len(),
            bytes@ == encode_utf8(text@),
            out@ == encode_bytes(bytes@.take(i as int)),
        decreases bytes.len() - i,
    {
        let b = bytes[i];
        proof {
            assert(bytes@.take(i + 1).drop_last() == bytes@.take(i as int));
            assert(bytes@.take(i + 1).last() == b);
        }
        if unreserved(b) {
            out.push(b as char);
        } else {
            out.push('%');
            out.push(hex_digit_of(b / 16));
            out.push(hex_digit_of(b % 16));
        }
        assert(out@ == encode_bytes(bytes@.take(i as int)) + encode_byte(b));
        i += 1;
    }
    proof {
        assert(bytes@.take(i as int) == bytes@);
        lemma_encode_bytes_is_encoded_text(bytes@);
    }
    out
}

/// Encoding goes byte by byte: the encoding of two sequences in a row is
/// the two encodings in a row.
pub proof fn lemma_encode_bytes_concat(a: Seq<u8>, b: Seq<u8>)
    ensures
        encode_bytes(a + b) == encode_bytes(a) + encode_bytes(b),
    decreases b.len(),
{
    if b.len() == 0 {
        assert(a + b == a);
        assert(encode_bytes(a) + encode_bytes(b) == encode_bytes(a));
    } else {
        assert((a + b).drop_last() == a + b.drop_last());
        lemma_encode_bytes_concat(a, b.drop_last());
        assert((encode_bytes(a) + encode_bytes(b.drop_last())) + encode_byte(b.last())
            == encode_bytes(a) + (encode_bytes(b.drop_last()) + encode_byte(b.last())));
    }
}

/// The encoding of a sequence that is not empty starts with the encoding
/// of its first byte.
pub proof fn lemma_encode_bytes_first(bytes: Seq<u8>)
    requires
        bytes.len() > 0,
    ensures
        encode_bytes(bytes) == encode_byte(bytes[0]) + encode_bytes(bytes.drop_first()),
{
    assert(bytes == seq![bytes[0]] + bytes.drop_first());
    lemma_encode_bytes_concat(seq![bytes[0]], bytes.drop_first());
    let one = seq![bytes[0]];
    assert(one.drop_last() == Seq::<u8>::empty());
    assert(encode_bytes(one.drop_last()) == Seq::<char>::empty());
    assert(one.last() == bytes[0]);
    assert(encode_bytes(one) == Seq::<char>::empty() + encode_byte(bytes[0]));
    assert(Seq::<char>::empty() + encode_byte(bytes[0]) == encode_byte(bytes[0]));
}

/// Different values below sixteen have different hexadecimal digits, and no
/// digit is `%`.
pub proof fn lemma_hex_digit_injective(m: u8, n: u8)
    requires
        m < 16,
        n < 16,
    ensures
        hex_digit(m) == hex_digit(n) ==> m == n,
        hex_digit(m) != '%',
        hex_digit(m) as u32 <= 0x7F,
{
    assert(hex_digit(m) as u32 == if m < 10 {
        0x30 + m
    } else {
        0x37 + m
    });
    assert(hex_digit(n) as u32 == if n < 10 {
        0x30 + n
    } else {
        0x37 + n
    });
}

/// Different bytes have different encodings, and neither encoding is the
/// start of the other followed by more.
pub proof fn lemma_encode_byte_prefix_free(a: u8, b: u8, x: Seq<char>, y: Seq<char>)
    requires
        encode_byte(a) + x == encode_byte(b) + y,
    ensures
        a == b,
        x == y,
{
    let ea = encode_byte(a);
    let eb = encode_byte(b);
    let l = ea + x;
    let r = eb + y;
    assert(l[0] == ea[0]);
    assert(r[0] == eb[0]);
    if is_unreserved(a) {
        assert((a as char) as u32 == a);
        assert(ea[0] != '%');
        if !is_unreserved(b) {
            assert(eb[0] == '%');
        } else {
            assert((b as char) as u32 == b);
        }
    } else {
        assert(ea[0] == '%');
        if is_unreserved(b) {
            assert((b as char) as u32 == b);
            assert(eb[0] != '%');
        } else {
            assert(l[1] == ea[1] && l[2] == ea[2]);
            assert(r[1] == eb[1] && r[2] == eb[2]);
            lemma_hex_digit_injective(a / 16, b / 16);
            lemma_hex_digit_injective(a % 16, b % 16);
        }
    }
    assert(a == b);
    assert(x == l.skip(ea.len() as int));
    assert(y == r.skip(eb.len() as int));
}

/// Byte sequences with the same encoding are the same.
pub proof fn lemma_encode_bytes_injective(a: Seq<u8>, b: Seq<u8>)
    requires
        encode_bytes(a) == encode_bytes(b),
    ensures
        a == b,
    decreases a.len(),
{
    if a.len() == 0 {
        if b.len() > 0 {
            lemma_encode_bytes_first(b);
            assert(encode_byte(b[0]).len() > 0);
            assert(encode_bytes(b).len() > 0);
        }
        assert(a == b);
    } else {
        lemma_encode_bytes_first(a);
        if b.len() == 0 {
            assert(encode_byte(a[0]).len() > 0);
            assert(encode_bytes(a).len() > 0);
        } else {
            lemma_encode_bytes_first(b);
            lemma_encode_byte_prefix_free(
                a[0],
                b[0],
                encode_bytes(a.drop_first()),
                encode_bytes(b.drop_first()),
            );
            lemma_encode_bytes_injective(a.drop_first(), b.drop_first());
            assert(a == seq![a[0]] + a.drop_first());
            assert(b == seq![b[0]] + b.drop_first());
        }
    }
}

/// Texts with the same percent-encoded form are the same text.
pub proof fn lemma_percent_encoded_injective(a: Seq<char>, b: Seq<char>)
    requires
        percent_encoded(a) == percent_encoded(b),
    ensures
        a == b,
{
    lemma_encode_bytes_injective(encode_utf8(a), encode_utf8(b));
    encode_utf8_decode_utf8(a);
    encode_utf8_decode_utf8(b);
}

/// The percent-encoded form of any text holds only unreserved characters
/// and `%`.
pub proof fn lemma_percent_encoded_is_encoded_text(text: Seq<char>)
    ensures
        is_encoded_text(percent_encoded(text)),
{
    lemma_encode_bytes_is_encoded_text(encode_utf8(text));
}

/// An encoding is never shorter than what it encodes, is as long exactly
/// when every byte is unreserved, and then holds the bytes themselves.
pub proof fn lemma_encode_bytes_len(bytes: Seq<u8>)
    ensures
        encode_bytes(bytes).len() >= bytes.len(),
        encode_bytes(bytes).len() == bytes.len() <==> all_unreserved(bytes),
        all_unreserved(bytes) ==> encode_bytes(bytes) == bytes.map_values(|b: u8| b as char),
    decreases bytes.len(),
{
    if bytes.len() > 0 {
        let front = bytes.drop_last();
        lemma_encode_bytes_len(front);
        assert(forall|i: int| 0 <= i < front.len() ==> front[i] == bytes[i]);
        if all_unreserved(bytes) {
            assert(all_unreserved(front));
            assert(is_unreserved(bytes.last()));
            assert(encode_bytes(bytes) == bytes.map_values(|b: u8| b as char));
        }
        if encode_bytes(bytes).len() == bytes.len() {
            assert(all_unreserved(front));
            assert(is_unreserved(bytes.last()));
            assert forall|i: int| 0 <= i < bytes.len() implies is_unreserved(
                #[trigger] bytes[i],
            ) by {
                if i < front.len() {
                    assert(front[i] == bytes[i]);
                }
            }
        }
    } else {
        assert(encode_bytes(bytes) == bytes.map_values(|b: u8| b as char));
    }
}

/// A character is ASCII by its number exactly when it is ASCII by order,
/// and an ASCII character is the character of its byte.
pub proof fn lemma_ascii_char(c: char)
    ensures
        c as u32 <= 0x7F <==> '\0' <= c <= '\u{7f}',
        c as u32 <= 0x7F ==> ((c as u8) as char) == c,
        is_scalar(c as u32),
{
}

/// A text has at least one byte for each character, and exactly one for
/// each only when it is ASCII.
pub proof fn lemma_utf8_len(text: Seq<char>)
    ensures
        encode_utf8(text).len() >= text.len(),
        encode_utf8(text).len() == text.len() ==> is_ascii_chars(text),
    decreases text.len(),
{
    if text.len() > 0 {
        let rest = text.drop_first();
        lemma_utf8_len(rest);
        if encode_utf8(text).len() == text.len() {
            lemma_ascii_char(text[0]);
            assert(encode_scalar(text[0] as u32).len() == 1);
            assert(has_width_1_encoding(text[0] as u32));
            assert forall|i: int| 0 <= i < text.len() implies '\0' <= #[trigger] text[i]
                <= '\u{7f}' by {
                if i > 0 {
                    assert(text[i] == rest[i - 1]);
                }
            }
        }
    }
}

/// A text is its own percent-encoded form exactly when every one of its
/// characters is unreserved.
pub proof fn lemma_percent_encoded_fixed_point(text: Seq<char>)
    ensures
        percent_encoded(text) == text <==> is_unreserved_text(text),
{
    let bytes = encode_utf8(text);
    lemma_encode_bytes_len(bytes);
    lemma_utf8_len(text);
    if is_unreserved_text(text) {
        assert(is_ascii_chars(text)) by {
            assert forall|i: int| 0 <= i < text.len() implies '\0' <= #[trigger] text[i]
                <= '\u{7f}' by {
                lemma_ascii_char(text[i]);
            }
        }
        is_ascii_chars_encode_utf8(text);
        assert(all_unreserved(bytes)) by {
            assert forall|i: int| 0 <= i < bytes.len() implies is_unreserved(
                #[trigger] bytes[i],
            ) by {
                assert(bytes[i] == text[i] as u8);
            }
        }
        assert(bytes.map_values(|b: u8| b as char) =~= text) by {
            assert forall|i: int| 0 <= i < text.len() implies (bytes[i] as char) == text[i] by {
                assert(bytes[i] == text[i] as u8);
                lemma_ascii_char(text[i]);
            }
        }
    }
    if percent_encoded(text) == text {
        assert(bytes.len() == text.len());
        is_ascii_chars_encode_utf8(text);
        assert forall|i: int| 0 <= i < text.len() implies (#[trigger] text[i]) as u32 <= 0x7F
            && is_unreserved(text[i] as u8) by {
            assert(bytes[i] == text[i] as u8);
            assert(is_unreserved(bytes[i]));
            lemma_ascii_char(text[i]);
        }
    }
}

/// Where an encoding holds no `%`, every byte encoded is unreserved.
pub proof fn lemma_unreserved_encoding(bytes: Seq<u8>)
    requires
        is_unreserved_text(encode_bytes(bytes)),
    ensures
        all_unreserved(bytes),
    decreases bytes.len(),
{
    if bytes.len() > 0 {
        let front = bytes.drop_last();
        let whole = encode_bytes(bytes);
        let head = encode_bytes(front);
        let tail = encode_byte(bytes.last());
        assert(whole == head + tail);
        assert forall|i: int| 0 <= i < head.len() implies (#[trigger] head[i]) as u32 <= 0x7F
            && is_unreserved(head[i] as u8) by {
            assert(head[i] == whole[i]);
        }
        lemma_unreserved_encoding(front);
        if !is_unreserved(bytes.last()) {
            assert(tail[0] == '%');
            assert(whole[head.len() as int] == tail[0]);
            assert(false);
        }
        assert forall|i: int| 0 <= i < bytes.len() implies is_unreserved(#[trigger] bytes[i]) by {
            if i < front.len() {
                assert(front[i] == bytes[i]);
            }
        }
    }
}

/// Encoding a second time changes nothing exactly when every character of
/// the text is unreserved.
pub proof fn lemma_percent_encoded_twice(text: Seq<char>)
    ensures
        percent_encoded(percent_encoded(text)) == percent_encoded(text) <==> is_unreserved_text(
            text,
        ),
{
    let once = percent_encoded(text);
    lemma_percent_encoded_fixed_point(text);
    lemma_percent_encoded_fixed_point(once);
    if percent_encoded(once) == once && !is_unreserved_text(text) {
        let bytes = encode_utf8(text);
        lemma_encode_bytes_len(bytes);
        lemma_utf8_len(text);
        lemma_unreserved_encoding(bytes);
        assert(all_unreserved(bytes));
        assert(once == bytes.map_values(|b: u8| b as char));
        let plain = bytes.map_values(|b: u8| b as char);
        assert(is_ascii_chars(plain)) by {
            assert forall|i: int| 0 <= i < plain.len() implies '\0' <= #[trigger] plain[i]
                <= '\u{7f}' by {
                assert(is_unreserved(bytes[i]));
                assert(plain[i] as u32 == bytes[i]);
            }
        }
        is_ascii_chars_encode_utf8(plain);
        assert(encode_utf8(plain) =~= bytes) by {
            assert forall|i: int| 0 <= i < bytes.len() implies encode_utf8(plain)[i]
                == bytes[i] by {
                assert(plain[i] as u8 == encode_utf8(plain)[i]);
                assert(plain[i] as u32 == bytes[i]);
            }
        }
        encode_utf8_decode_utf8(plain);
        encode_utf8_decode_utf8(text);
        assert(plain == text);
        assert(false);
    }
}

} // verus!
