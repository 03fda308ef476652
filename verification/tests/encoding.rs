use oauth_sig::encode::percent_encode;
use oauth_sig::text::{push_decimal, to_lower, to_upper};

fn is_unreserved(c: char) -> bool {
    c.is_ascii_alphanumeric() || c == '-' || c == '.' || c == '_' || c == '~'
}

#[test]
fn encode_empty_text() {
    assert_eq!(percent_encode("").as_str(), "");
}

#[test]
fn encode_keeps_every_unreserved_character() {
    let all = "ABCDEFGHIJKLMNOPQRSTUVWXYZabcdefghijklmnopqrstuvwxyz0123456789-._~";
    assert_eq!(percent_encode(all).as_str(), all);
}

#[test]
fn encode_every_ascii_character() {
    for b in 0u8..128 {
        let c = b as char;
        let text = c.to_string();
        let expected = if is_unreserved(c) { text.clone() } else { format!("%{:02X}", b) };
        assert_eq!(percent_encode(&text), expected);
    }
}

#[test]
fn encode_uses_capital_hex_digits() {
    assert_eq!(percent_encode("/?:[]").as_str(), "%2F%3F%3A%5B%5D");
    assert_eq!(percent_encode("\u{7f}").as_str(), "%7F");
    assert_eq!(percent_encode("\n\0").as_str(), "%0A%00");
}

#[test]
fn encode_goes_by_bytes_not_characters() {
    assert_eq!(percent_encode("\u{e9}").as_str(), "%C3%A9");
    assert_eq!(percent_encode("\u{20ac}").as_str(), "%E2%82%AC");
    assert_eq!(percent_encode("\u{1f600}").as_str(), "%F0%9F%98%80");
    assert_eq!(percent_encode("a\u{2603}b").as_str(), "a%E2%98%83b");
}

#[test]
fn encode_encodes_the_percent_sign() {
    assert_eq!(percent_encode("%").as_str(), "%25");
    assert_eq!(percent_encode("%41").as_str(), "%2541");
    assert_eq!(percent_encode(&percent_encode("a b")).as_str(), "a%2520b");
}

#[test]
fn encoded_text_holds_only_unreserved_characters_and_percent() {
    for text in ["Ladies + Gentlemen", "\u{2603}=&;,", "100% \u{fc}ber", "~tilde~", ""] {
        let out = percent_encode(text);
        assert!(out.chars().all(|c| is_unreserved(c) || c == '%'));
    }
}

#[test]
fn encode_is_idempotent_only_on_unreserved_text() {
    for text in ["abc-XYZ_0.9~", "", "a b", "%", "\u{2603}", "a=b&c"] {
        let once = percent_encode(text);
        let twice = percent_encode(&once);
        let plain = text.chars().all(is_unreserved);
        assert_eq!(once == text, plain);
        assert_eq!(twice == once, plain);
    }
}

#[test]
fn encode_tells_texts_apart() {
    let texts = ["", "a", "%", "%25", "a b", "a%20b", "a+b", "\u{e9}", "%C3%A9"];
    for (i, a) in texts.iter().enumerate() {
        for (j, b) in texts.iter().enumerate() {
            assert_eq!(percent_encode(a) == percent_encode(b), i == j);
        }
    }
}

#[test]
fn lower_and_upper_fold_ascii_letters_only() {
    assert_eq!(to_lower("HTTP").as_str(), "http");
    assert_eq!(to_lower("ExAmPlE.CoM-09_@[`{").as_str(), "example.com-09_@[`{");
    assert_eq!(to_upper("post").as_str(), "POST");
    assert_eq!(to_upper("pAtCh-09_@[`{").as_str(), "PATCH-09_@[`{");
    assert_eq!(to_lower("\u{c9}A\u{e9}").as_str(), "\u{c9}a\u{e9}");
    assert_eq!(to_upper("\u{c9}a\u{e9}").as_str(), "\u{c9}A\u{e9}");
    assert_eq!(to_lower("").as_str(), "");
    assert_eq!(to_lower(&to_upper("MiXed")), to_lower("MiXed"));
}

#[test]
fn decimal_of_ports() {
    let cases = [(0u16, "0"), (7, "7"), (10, "10"), (80, "80"), (8080, "8080"), (65535, "65535")];
    for (n, text) in cases {
        let mut out = String::from(":");
        push_decimal(&mut out, n);
        assert_eq!(out, format!(":{}", text));
    }
}
