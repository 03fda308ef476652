use oauth_sig::order::{bytes_le_exec, pair_le_exec};
use oauth_sig::params::{join_pairs, normalize_parameters, sort_encoded};

fn pairs(items: &[(&str, &str)]) -> Vec<(String, String)> {
    items.iter().map(|p| (p.0.to_string(), p.1.to_string())).collect()
}

#[test]
fn normalize_no_parameters() {
    assert_eq!(normalize_parameters(&[]).as_str(), "");
}

#[test]
fn normalize_one_parameter() {
    assert_eq!(normalize_parameters(&pairs(&[("a", "b")])).as_str(), "a=b");
    assert_eq!(normalize_parameters(&pairs(&[("", "")])).as_str(), "=");
    assert_eq!(normalize_parameters(&pairs(&[("a b", "c&d=e")])).as_str(), "a%20b=c%26d%3De");
}

#[test]
fn normalize_sorts_by_name_then_by_value() {
    assert_eq!(
        normalize_parameters(&pairs(&[("b", "1"), ("a", "2"), ("a", "10"), ("a", "1")])).as_str(),
        "a=1&a=10&a=2&b=1"
    );
}

#[test]
fn normalize_keeps_equal_pairs() {
    assert_eq!(
        normalize_parameters(&pairs(&[("a", "1"), ("b", "2"), ("a", "1"), ("a", "1")])).as_str(),
        "a=1&a=1&a=1&b=2"
    );
}

#[test]
fn normalize_orders_by_bytes() {
    // Capitals before small letters, digits before both, a prefix first.
    assert_eq!(
        normalize_parameters(&pairs(&[("a", ""), ("B", ""), ("1", ""), ("aa", ""), ("_", "")]))
            .as_str(),
        "1=&B=&_=&a=&aa="
    );
}

#[test]
fn normalize_orders_the_encoded_forms() {
    // As given, "a" is below "{"; encoded, "%7B" is below "a".
    assert_eq!(
        normalize_parameters(&pairs(&[("a", "1"), ("{", "2")])).as_str(),
        "%7B=2&a=1"
    );
    assert_eq!(
        normalize_parameters(&pairs(&[("k", "~"), ("k", "\u{e9}"), ("k", "z")])).as_str(),
        "k=%C3%A9&k=z&k=~"
    );
    assert_eq!(
        normalize_parameters(&pairs(&[("a-b", "3"), ("a+b", "2"), ("a b", "1")])).as_str(),
        "a%20b=1&a%2Bb=2&a-b=3"
    );
}

#[test]
fn normalize_does_not_depend_on_the_order_given() {
    let items =
        [("b5", "=%3D"), ("a3", "a"), ("c@", ""), ("a2", "r b"), ("a3", "2 q"), ("a3", "a")];
    let expected = normalize_parameters(&pairs(&items));
    assert_eq!(expected.as_str(), "a2=r%20b&a3=2%20q&a3=a&a3=a&b5=%3D%253D&c%40=");
    let mut rotated = items.to_vec();
    for _ in 0..items.len() {
        rotated.rotate_left(1);
        assert_eq!(normalize_parameters(&pairs(&rotated)), expected);
        let mut reversed = rotated.clone();
        reversed.reverse();
        assert_eq!(normalize_parameters(&pairs(&reversed)), expected);
    }
}

#[test]
fn normalize_tells_parameter_sets_apart() {
    let a = normalize_parameters(&pairs(&[("a", "b"), ("c", "d")]));
    assert_ne!(a, normalize_parameters(&pairs(&[("a", "b"), ("c", "e")])));
    assert_ne!(a, normalize_parameters(&pairs(&[("a", "b&c=d")])));
    assert_ne!(a, normalize_parameters(&pairs(&[("a", "b"), ("c", "d"), ("c", "d")])));
    assert_ne!(
        normalize_parameters(&pairs(&[("a", "=b")])),
        normalize_parameters(&pairs(&[("a=", "b")]))
    );
}

#[test]
fn sort_encoded_gives_the_pairs_encoded_and_in_order() {
    assert_eq!(
        sort_encoded(&pairs(&[("z", "last"), ("a b", "x y"), ("a", "2"), ("a", "1")])),
        pairs(&[("a", "1"), ("a", "2"), ("a%20b", "x%20y"), ("z", "last")])
    );
    assert_eq!(sort_encoded(&[]), Vec::<(String, String)>::new());
}

#[test]
fn join_pairs_writes_them_as_given() {
    assert_eq!(join_pairs(&[]).as_str(), "");
    assert_eq!(join_pairs(&pairs(&[("b", "2")])).as_str(), "b=2");
    assert_eq!(join_pairs(&pairs(&[("b", "2"), ("a", "1"), ("", "")])).as_str(), "b=2&a=1&=");
}

#[test]
fn bytes_compare_lexicographically() {
    assert!(bytes_le_exec(b"", b""));
    assert!(bytes_le_exec(b"", b"a"));
    assert!(!bytes_le_exec(b"a", b""));
    assert!(bytes_le_exec(b"a", b"a"));
    assert!(bytes_le_exec(b"a", b"ab"));
    assert!(!bytes_le_exec(b"ab", b"a"));
    assert!(bytes_le_exec(b"ab", b"b"));
    assert!(!bytes_le_exec(b"b", b"ab"));
    assert!(bytes_le_exec(b"aZ", b"aa"));
    assert!(bytes_le_exec(&[0x7f], &[0x80]));
    assert!(!bytes_le_exec(&[0xff], &[0x00, 0xff]));
}

#[test]
fn pairs_compare_by_name_then_value() {
    let p = |n: &str, v: &str| (n.to_string(), v.to_string());
    assert!(pair_le_exec(&p("a", "2"), &p("b", "1")));
    assert!(!pair_le_exec(&p("b", "1"), &p("a", "2")));
    assert!(pair_le_exec(&p("a", "1"), &p("a", "2")));
    assert!(!pair_le_exec(&p("a", "2"), &p("a", "1")));
    assert!(pair_le_exec(&p("a", "1"), &p("a", "1")));
    assert!(pair_le_exec(&p("a", "z"), &p("ab", "")));
}
