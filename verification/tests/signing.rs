use oauth_sig::base64::base64_encode;
use oauth_sig::request::collect_signed;
use oauth_sig::sign::{encode_digest, make_signing_key};
use oauth_sig::{
    base_string_uri, get_signature_base_string, normalize_parameters, oauth_parameters, params,
    percent_encode, signature, signature_base_string, Error, SignatureMethod, Uri,
};

const URI: &str = "http://example.com/request?b5=%3D%253D&a3=a&c%40=&a2=r%20b";
const REALM: &str = "Example";
const CONSUMER_KEY: &str = "9djdj82h48djs9d2";
const CONSUMER_SECRET: &str = "j49sk3j29djd";
const TOKEN: &str = "kkk9d7dh3k39sjv7";
const TOKEN_SECRET: &str = "dh893hdasih9";
const TIMESTAMP: &str = "137131201";
const NONCE: &str = "7d8f3e4a";

fn plain(base: &str, secret: &str, token: Option<&str>) -> String {
    signature(
        base.to_string(),
        SignatureMethod::Plaintext,
        secret.to_string(),
        token.map(|t| t.to_string()),
    )
}

fn sample_base_string() -> String {
    get_signature_base_string().unwrap()
}

#[test]
fn signature_method_test() {
    assert_eq!(SignatureMethod::HmacSha1.to_string().as_str(), "HMAC-SHA1");
    assert_eq!(SignatureMethod::Plaintext.to_string().as_str(), "PLAINTEXT");
}

#[test]
fn percent_encode_test() {
    assert_eq!(percent_encode("Ladies + Gentlemen").as_str(), "Ladies%20%2B%20Gentlemen");
    assert_eq!(percent_encode("An encoded string!").as_str(), "An%20encoded%20string%21");
    assert_eq!(percent_encode("Dogs, Cats & Mice").as_str(), "Dogs%2C%20Cats%20%26%20Mice");
    assert_eq!(percent_encode("☃").as_str(), "%E2%98%83");
}

#[test]
fn base_string_uri_test() {
    assert_eq!(
        base_string_uri(Uri::parse("HTTP://EXAMPLE.COM:80/r%20v/X?id=123").unwrap()).as_str(),
        "http://example.com/r%20v/X"
    );
    assert_eq!(
        base_string_uri(Uri::parse("https://www.example.net:8080/?q=1").unwrap()).as_str(),
        "https://www.example.net:8080/"
    );
}

#[test]
fn normalize_parameters_test() {
    assert_eq!(
        normalize_parameters(&params()).as_str(),
        concat_three(
            "a2=r%20b&a3=2%20q&a3=a&b5=%3D%253D&c%40=&c2=&oauth_consumer_key=9dj",
            "dj82h48djs9d2&oauth_nonce=7d8f3e4a&oauth_signature_method=HMAC-SHA1",
            "&oauth_timestamp=137131201&oauth_token=kkk9d7dh3k39sjv7",
        )
    );
}

fn concat_three(a: &str, b: &str, c: &str) -> String {
    format!("{}{}{}", a, b, c)
}

#[test]
fn signature_base_string_test() {
    assert_eq!(
        get_signature_base_string().unwrap(),
        format!(
            "{}{}{}{}{}",
            "POST&http%3A%2F%2Fexample.com%2Frequest&a2%3Dr%2520b%26a3%3D2%2520q",
            "%26a3%3Da%26b5%3D%253D%25253D%26c%2540%3D%26c2%3D%26oauth_consumer_",
            "key%3D9djdj82h48djs9d2%26oauth_nonce%3D7d8f3e4a%26oauth_signature_m",
            "ethod%3DHMAC-SHA1%26oauth_timestamp%3D137131201%26oauth_token%3Dkkk",
            "9d7dh3k39sjv7"
        )
    );
}

#[test]
fn parse_rejects_relative_text() {
    assert_eq!(Uri::parse("/request?x=1").err(), Some(Error::InvalidUri));
}

#[test]
fn hmac_signature_of_sample_request() {
    assert_eq!(
        signature(
            sample_base_string(),
            SignatureMethod::HmacSha1,
            CONSUMER_SECRET.to_string(),
            Some(TOKEN_SECRET.to_string()),
        )
        .as_str(),
        "r6%2FTJjbCOr97%2F%2BUU0NsvSne7s5g%3D"
    );
}

// RFC 5849 prints this signature beside its POST request; it is the code of
// the same base string with GET in front.
#[test]
fn hmac_signature_printed_in_rfc_is_that_of_get() {
    let post = sample_base_string();
    let get = format!("GET{}", &post[4..]);
    assert_eq!(
        signature(
            get,
            SignatureMethod::HmacSha1,
            CONSUMER_SECRET.to_string(),
            Some(TOKEN_SECRET.to_string()),
        )
        .as_str(),
        "bYT5CMsGcbgUdFHObYMEfcx6bsw%3D"
    );
}

#[test]
fn hmac_signature_without_token_secret() {
    // The key is "key&": the token secret's place stays empty.
    assert_eq!(
        signature(
            "The quick brown fox jumps over the lazy dog".to_string(),
            SignatureMethod::HmacSha1,
            "key".to_string(),
            None,
        )
        .as_str(),
        "zjRQZUOj4J%2Brptg%2BOBGxGKXW68g%3D"
    );
}

#[test]
fn hmac_signature_depends_on_both_inputs() {
    let sign = |base: &str, secret: &str, token: Option<&str>| {
        signature(
            base.to_string(),
            SignatureMethod::HmacSha1,
            secret.to_string(),
            token.map(|t| t.to_string()),
        )
    };
    let a = sign("base", "cs", None);
    assert_eq!(a.as_str(), "4LIHXsZ%2F%2FboYzSP4VoU8yJSHkUE%3D");
    assert_eq!(a, sign("base", "cs", Some("")));
    assert_ne!(a, sign("base", "cs", Some("t")));
    assert_ne!(a, sign("bass", "cs", None));
    assert_ne!(a, sign("base", "ct", None));
    assert_ne!(a.as_str(), "base");
    assert_ne!(a.as_str(), "cs%26");
}

#[test]
fn plaintext_signature_is_the_encoded_key() {
    assert_eq!(
        plain("anything", CONSUMER_SECRET, Some(TOKEN_SECRET)).as_str(),
        "j49sk3j29djd%26dh893hdasih9"
    );
    assert_eq!(
        plain("", CONSUMER_SECRET, Some(TOKEN_SECRET)),
        plain("other", CONSUMER_SECRET, Some(TOKEN_SECRET))
    );
}

#[test]
fn plaintext_signature_without_token_secret() {
    assert_eq!(plain("b", "cs", None).as_str(), "cs%26");
    assert_eq!(plain("b", "cs", Some("")).as_str(), "cs%26");
    assert_eq!(plain("b", "", None).as_str(), "%26");
}

#[test]
fn plaintext_signature_encodes_the_secrets_twice() {
    // The key holds each secret encoded; the signature encodes the key.
    assert_eq!(make_signing_key("a b", &Some("c&d".to_string())).as_str(), "a%20b&c%26d");
    assert_eq!(plain("b", "a b", Some("c&d")).as_str(), "a%2520b%26c%2526d");
}

#[test]
fn signing_key_of_the_sample_request() {
    assert_eq!(
        make_signing_key(CONSUMER_SECRET, &Some(TOKEN_SECRET.to_string())).as_str(),
        "j49sk3j29djd&dh893hdasih9"
    );
    assert_eq!(make_signing_key(CONSUMER_SECRET, &None).as_str(), "j49sk3j29djd&");
}

#[test]
fn digest_text_is_base64_then_encoded() {
    assert_eq!(encode_digest(&[]).as_str(), "");
    assert_eq!(encode_digest(b"M").as_str(), "TQ%3D%3D");
    assert_eq!(encode_digest(b"Ma").as_str(), "TWE%3D");
    assert_eq!(encode_digest(b"Man").as_str(), "TWFu");
    assert_eq!(encode_digest(&[0xfb, 0xff]).as_str(), "%2B%2F8%3D");
}

#[test]
fn base64_alphabet_and_padding() {
    let all: [u8; 48] = [
        0x00, 0x10, 0x83, 0x10, 0x51, 0x87, 0x20, 0x92, 0x8b, 0x30, 0xd3, 0x8f, 0x41, 0x14, 0x93,
        0x51, 0x55, 0x97, 0x61, 0x96, 0x9b, 0x71, 0xd7, 0x9f, 0x82, 0x18, 0xa3, 0x92, 0x59, 0xa7,
        0xa2, 0x9a, 0xab, 0xb2, 0xdb, 0xaf, 0xc3, 0x1c, 0xb3, 0xd3, 0x5d, 0xb7, 0xe3, 0x9e, 0xbb,
        0xf3, 0xdf, 0xbf,
    ];
    assert_eq!(
        base64_encode(&all).as_str(),
        "ABCDEFGHIJKLMNOPQRSTUVWXYZabcdefghijklmnopqrstuvwxyz0123456789+/"
    );
    assert_eq!(base64_encode(b"").as_str(), "");
    assert_eq!(base64_encode(b"f").as_str(), "Zg==");
    assert_eq!(base64_encode(b"fo").as_str(), "Zm8=");
    assert_eq!(base64_encode(b"foo").as_str(), "Zm9v");
    assert_eq!(base64_encode(b"foob").as_str(), "Zm9vYg==");
    assert_eq!(base64_encode(b"fooba").as_str(), "Zm9vYmE=");
    assert_eq!(base64_encode(b"foobar").as_str(), "Zm9vYmFy");
}

#[test]
fn changing_one_value_changes_base_string_and_signature() {
    let uri = Uri::parse(URI).unwrap();
    let oauth = oauth_parameters(
        None,
        CONSUMER_KEY.to_string(),
        Some(TOKEN.to_string()),
        SignatureMethod::HmacSha1,
        TIMESTAMP.to_string(),
        NONCE.to_string(),
        None,
        None,
    );
    let before = vec![("c2".to_string(), "".to_string()), ("a3".to_string(), "2 q".to_string())];
    let after = vec![("c2".to_string(), "".to_string()), ("a3".to_string(), "2 r".to_string())];
    let base_before = signature_base_string("POST", uri.clone(), &before, oauth.clone());
    let base_after = signature_base_string("POST", uri, &after, oauth);
    assert_ne!(base_before, base_after);
    let sign = |base: String| {
        signature(
            base,
            SignatureMethod::HmacSha1,
            CONSUMER_SECRET.to_string(),
            Some(TOKEN_SECRET.to_string()),
        )
    };
    assert_ne!(sign(base_before), sign(base_after));
}

#[test]
fn base_string_leaves_out_realm_and_signature() {
    let uri = Uri::parse("http://example.com/").unwrap();
    let oauth = vec![
        ("realm".to_string(), "Example".to_string()),
        ("oauth_nonce".to_string(), "n".to_string()),
        ("oauth_signature".to_string(), "old".to_string()),
    ];
    let own = vec![("realm".to_string(), "kept".to_string())];
    assert_eq!(
        signature_base_string("get", uri, &own, oauth.clone()).as_str(),
        "GET&http%3A%2F%2Fexample.com%2F&oauth_nonce%3Dn%26realm%3Dkept"
    );
    let signed = collect_signed(&[], &own, &oauth);
    assert_eq!(
        signed,
        vec![
            ("realm".to_string(), "kept".to_string()),
            ("oauth_nonce".to_string(), "n".to_string()),
        ]
    );
}

#[test]
fn base_string_signs_the_query_of_the_uri() {
    let uri = Uri::parse("https://example.com/p?b=2&a=1+x&a=%26#frag").unwrap();
    assert_eq!(
        uri.query,
        vec![
            ("b".to_string(), "2".to_string()),
            ("a".to_string(), "1 x".to_string()),
            ("a".to_string(), "&".to_string()),
        ]
    );
    assert_eq!(
        signature_base_string("Put", uri, &[], Vec::new()).as_str(),
        "PUT&https%3A%2F%2Fexample.com%2Fp&a%3D%2526%26a%3D1%2520x%26b%3D2"
    );
}

#[test]
fn base_string_of_a_request_without_parameters() {
    let uri = Uri::parse("http://example.com").unwrap();
    assert_eq!(
        signature_base_string("get", uri, &[], Vec::new()).as_str(),
        "GET&http%3A%2F%2Fexample.com%2F&"
    );
}

#[test]
fn oauth_parameters_in_full() {
    let all = oauth_parameters(
        Some("Example".to_string()),
        "key".to_string(),
        Some("tok".to_string()),
        SignatureMethod::Plaintext,
        "12".to_string(),
        "abc".to_string(),
        Some("http://cb/".to_string()),
        Some("2.0".to_string()),
    );
    let expected: Vec<(String, String)> = [
        ("realm", "Example"),
        ("oauth_consumer_key", "key"),
        ("oauth_token", "tok"),
        ("oauth_signature_method", "PLAINTEXT"),
        ("oauth_timestamp", "12"),
        ("oauth_nonce", "abc"),
        ("oauth_callback", "http://cb/"),
        ("oauth_version", "1.0"),
    ]
    .iter()
    .map(|p| (p.0.to_string(), p.1.to_string()))
    .collect();
    assert_eq!(all, expected);
}

#[test]
fn oauth_parameters_at_least() {
    let few = oauth_parameters(
        None,
        "key".to_string(),
        None,
        SignatureMethod::HmacSha1,
        "12".to_string(),
        "abc".to_string(),
        None,
        None,
    );
    let expected: Vec<(String, String)> = [
        ("oauth_consumer_key", "key"),
        ("oauth_signature_method", "HMAC-SHA1"),
        ("oauth_timestamp", "12"),
        ("oauth_nonce", "abc"),
    ]
    .iter()
    .map(|p| (p.0.to_string(), p.1.to_string()))
    .collect();
    assert_eq!(few, expected);
}

#[test]
fn sample_parameters_are_those_of_the_rfc() {
    let all = params();
    assert_eq!(all.len(), 11);
    assert_eq!(all[0], ("b5".to_string(), "=%3D".to_string()));
    assert_eq!(all[2], ("c@".to_string(), "".to_string()));
    assert_eq!(all[4], ("oauth_consumer_key".to_string(), CONSUMER_KEY.to_string()));
    assert_eq!(all[10], ("a3".to_string(), "2 q".to_string()));
}

#[test]
fn sample_base_string_is_put_together_from_its_parts() {
    let by_hand = signature_base_string(
        "post",
        Uri::parse(URI).unwrap(),
        &params()[9..],
        oauth_parameters(
            Some(REALM.to_string()),
            CONSUMER_KEY.to_string(),
            Some(TOKEN.to_string()),
            SignatureMethod::HmacSha1,
            TIMESTAMP.to_string(),
            NONCE.to_string(),
            None,
            None,
        ),
    );
    assert_eq!(get_signature_base_string(), Ok(by_hand));
}
