//! Building blocks for ASCII text: appending characters, folding case and
//! writing numbers in decimal.

use vstd::prelude::*;

verus! {

/// `String::push` of the standard library: the string afterwards is the
/// string before with the character appended at its end.
pub assume_specification[ String::push ](s: &mut String, c: char)
    ensures
        final(s)@ == old(s)@.push(c),
;

/// The lower-case form of an ASCII capital; any other character is itself.
pub open spec fn lower_char(c: char) -> char {
    if 'A' <= c <= 'Z' {
        ((c as u8) + 32) as char
    } else {
        c
    }
}

/// The upper-case form of an ASCII small letter; any other character is itself.
pub open spec fn upper_char(c: char) -> char {
    if 'a' <= c <= 'z' {
        ((c as u8) - 32) as char
    } else {
        c
    }
}

/// The text with every ASCII capital replaced by its small letter.
pub open spec fn lowered(text: Seq<char>) -> Seq<char> {
    text.map_values(|c: char| lower_char(c))
}

/// The text with every ASCII small letter replaced by its capital.
pub open spec fn uppered(text: Seq<char>) -> Seq<char> {
    text.map_values(|c: char| upper_char(c))
}

/// The decimal digit for a value below ten.
pub open spec fn digit_char(d: nat) -> char {
    (0x30 + d) as char
}

/// A number in decimal, without leading zeros; zero is `0`.
pub open spec fn decimal(n: nat) -> Seq<char>
    decreases n,
{
    if n < 10 {
        seq![digit_char(n)]
    } else {
        decimal(n / 10).push(digit_char(n % 10))
    }
}

/// Folding to lower case undoes folding to upper case, and folding twice
/// is folding once: texts that differ only in the case of ASCII letters
/// have the same lower-case form.
pub proof fn lemma_lowered_ignores_case(text: Seq<char>)
    ensures
        lowered(uppered(text)) == lowered(text),
        lowered(lowered(text)) == lowered(text),
{
    assert forall|i: int| 0 <= i < text.len() implies lower_char(upper_char(#[trigger] text[i]))
        == lower_char(text[i]) && lower_char(lower_char(text[i])) == lower_char(text[i]) by {
        lemma_lower_char_ignores_case(text[i]);
    }
    assert(lowered(uppered(text)) =~= lowered(text));
    assert(lowered(lowered(text)) =~= lowered(text));
}

/// The lower-case form of a character, of its capital and of its small
/// letter are one.
pub proof fn lemma_lower_char_ignores_case(c: char)
    ensures
        lower_char(upper_char(c)) == lower_char(c),
        lower_char(lower_char(c)) == lower_char(c),
{
}

fn lower(c: char) -> (r: char)
    ensures
        r == lower_char(c),
{
    if 'A' <= c && c <= 'Z' {
        ((c as u8) + 32) as char
    } else {
        c
    }
}

fn upper(c: char) -> (r: char)
    ensures
        r == upper_char(c),
{
    if 'a' <= c && c <= 'z' {
        ((c as u8) - 32) as char
    } else {
        c
    }
}

/// Folds the ASCII capitals of a text to small letters.
pub fn to_lower(text: &str) -> (r: String)
    ensures
        r@ == lowered(text@),
{
    let mut out = String::new();
    for c in it: text.chars()
        invariant
            it.seq() == text@,
            out@ == lowered(text@.take(it.index())),
    {
        proof {
            assert(text@.take(it.index() + 1) == text@.take(it.index()).push(c));
        }
        out.push(lower(c));
        assert(out@ == lowered(text@.take(it.index() + 1)));
    }
    proof {
        assert(text@.take(text@.len() as int) == text@);
    }
    out
}

/// Folds the ASCII small letters of a text to capitals.
pub fn to_upper(text: &str) -> (r: String)
    ensures
        r@ == uppered(text@),
{
    let mut out = String::new();
    for c in it: text.chars()
        invariant
            it.seq() == text@,
            out@ == uppered(text@.take(it.index())),
    {
        proof {
            assert(text@.take(it.index() + 1) == text@.take(it.index()).push(c));
        }
        out.push(upper(c));
        assert(out@ == uppered(text@.take(it.index() + 1)));
    }
    proof {
        assert(text@.take(text@.len() as int) == text@);
    }
    out
}

/// Appends a port number in decimal to a text.
pub fn push_decimal(out: &mut String, n: u16)
    ensures
        final(out)@ == old(out)@ + decimal(n as nat),
    decreases n,
{
    if n >= 10 {
        push_decimal(out, n / 10);
    }
    let d: u8 = (n % 10) as u8;
    out.push((0x30u8 + d) as char);
    proof {
        if n >= 10 {
            assert(out@ == old(out)@ + decimal(n as nat / 10).push(digit_char(n as nat % 10)));
        } else {
            assert(out@ == old(out)@ + seq![digit_char(n as nat)]);
        }
    }
}

} // verus!
