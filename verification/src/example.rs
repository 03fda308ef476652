//! The worked example of RFC 5849, section 3.4.1: its sample request, for
//! trying the library out.

use vstd::prelude::*;
use vstd::slice::slice_subrange;
use crate::method::SignatureMethod;
use crate::order::Pair;
use crate::params::texts;
use crate::request::{
    oauth_parameter_texts, oauth_parameters, signature_base_string, signature_base_text,
};
use crate::uri::{parsed_uri, Error, Uri, UriView};

verus! {

/// The parameters of the sample request, in the order in which the request
/// carries them: query, authorization header, body.
pub open spec fn example_parameters() -> Seq<Pair> {
    seq![
        ("b5"@, "=%3D"@),
        ("a3"@, "a"@),
        ("c@"@, ""@),
        ("a2"@, "r b"@),
        ("oauth_consumer_key"@, "9djdj82h48djs9d2"@),
        ("oauth_token"@, "kkk9d7dh3k39sjv7"@),
        ("oauth_signature_method"@, "HMAC-SHA1"@),
        ("oauth_timestamp"@, "137131201"@),
        ("oauth_nonce"@, "7d8f3e4a"@),
        ("c2"@, ""@),
        ("a3"@, "2 q"@),
    ]
}

/// The URI of the sample request, query included.
pub open spec fn example_uri_text() -> Seq<char> {
    "http://example.com/request?b5=%3D%253D&a3=a&c%40=&a2=r%20b"@
}

/// The protocol parameters of the sample request.
pub open spec fn example_oauth_parameters() -> Seq<Pair> {
    oauth_parameter_texts(
        Some("Example"@),
        "9djdj82h48djs9d2"@,
        Some("kkk9d7dh3k39sjv7"@),
        SignatureMethod::HmacSha1,
        "137131201"@,
        "7d8f3e4a"@,
        None,
        None,
    )
}

/// The signature base string of the sample request, given its URI in
/// parts: the method is `post`, the parameters beside those of the URI
/// and of the protocol are the two of the body.
pub open spec fn example_base_text(uri: UriView) -> Seq<char> {
    signature_base_text("post"@, uri, example_parameters().skip(9), example_oauth_parameters())
}

fn pair(name: &str, value: &str) -> (p: (String, String))
    ensures
        p.0@ == name@,
        p.1@ == value@,
{
    (String::from_str(name), String::from_str(value))
}

/// The parameters of the sample request.
pub fn params() -> (r: Vec<(String, String)>)
    ensures
        texts(r@) == example_parameters(),
{
    let mut out: Vec<(String, String)> = Vec::new();
    out.push(pair("b5", "=%3D"));
    out.push(pair("a3", "a"));
    out.push(pair("c@", ""));
    out.push(pair("a2", "r b"));
    out.push(pair("oauth_consumer_key", "9djdj82h48djs9d2"));
    out.push(pair("oauth_token", "kkk9d7dh3k39sjv7"));
    out.push(pair("oauth_signature_method", "HMAC-SHA1"));
    out.push(pair("oauth_timestamp", "137131201"));
    out.push(pair("oauth_nonce", "7d8f3e4a"));
    out.push(pair("c2", ""));
    out.push(pair("a3", "2 q"));
    out
}

/// The signature base string of the sample request. It is there exactly
/// when the request's URI is read as a URI with a host.
pub fn get_signature_base_string() -> (r: Result<String, Error>)
    ensures
        match r {
            Ok(s) => parsed_uri(example_uri_text()) matches Some(uri) && s@ == example_base_text(
                uri,
            ),
            Err(e) => e == Error::InvalidUri && parsed_uri(example_uri_text()) is None,
        },
{
    let uri = match Uri::parse("http://example.com/request?b5=%3D%253D&a3=a&c%40=&a2=r%20b") {
        Ok(uri) => uri,
        Err(e) => {
            return Err(e);
        },
    };
    let all = params();
    assert(all@.len() == texts(all@).len());
    let body = slice_subrange(all.as_slice(), 9, 11);
    assert(texts(body@) == example_parameters().skip(9));
    let oauth = oauth_parameters(
        Some(String::from_str("Example")),
        String::from_str("9djdj82h48djs9d2"),
        Some(String::from_str("kkk9d7dh3k39sjv7")),
        SignatureMethod::HmacSha1,
        String::from_str("137131201"),
        String::from_str("7d8f3e4a"),
        None,
        None,
    );
    Ok(signature_base_string("post", uri, body, oauth))
}

} // verus!
