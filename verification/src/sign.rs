//! The signing key and the signature.

use vstd::prelude::*;
use vstd::utf8::encode_utf8;
use hmac::Mac;
use crate::base64::{base64, base64_encode, lemma_base64_injective};
use crate::encode::{
    lemma_percent_encoded_injective, lemma_percent_encoded_is_encoded_text, percent_encode,
    percent_encoded,
};
use crate::params::{lemma_encoded_text_has_no_separator, lemma_split_last};
use crate::method::SignatureMethod;

verus! {

/// The HMAC-SHA1 code of a message under a key, as the `hmac` and `sha1`
/// crates compute it.
pub uninterp spec fn hmac_sha1_digest(key: Seq<u8>, message: Seq<u8>) -> Seq<u8>;

/// Feeds the message to `hmac::Hmac<sha1::Sha1>` keyed with `key`
/// (`Mac::new_from_slice`, `Mac::update`, `Mac::finalize`) and returns the
/// bytes of the code. The code is a function of key and message alone; its
/// value is not stated here. `new_from_slice` accepts a key of any length.
#[verifier::external_body]
fn hmac_sha1(key: &[u8], message: &[u8]) -> (digest: Vec<u8>)
    ensures
        digest@ == hmac_sha1_digest(key@, message@),
{
    let mut mac = hmac::Hmac::<sha1::Sha1>::new_from_slice(key).unwrap();
    mac.update(message);
    mac.finalize().into_bytes().to_vec()
}

/// The text of a secret; of an absent one, the empty text.
pub open spec fn secret_text(secret: Option<String>) -> Seq<char> {
    match secret {
        Some(s) => s@,
        None => Seq::empty(),
    }
}

/// The signing key: the encoded consumer secret, `&`, and the encoded
/// token secret, which is empty where there is none.
pub open spec fn signing_key(consumer_secret: Seq<char>, token_secret: Seq<char>) -> Seq<char> {
    (percent_encoded(consumer_secret) + seq!['&']) + percent_encoded(token_secret)
}

/// A message authentication code as signature text: base64, then
/// percent-encoded.
pub open spec fn digest_text(digest: Seq<u8>) -> Seq<char> {
    percent_encoded(base64(digest))
}

/// The signature of a base string under a method and two secrets.
pub open spec fn signature_text(
    base_string: Seq<char>,
    method: SignatureMethod,
    consumer_secret: Seq<char>,
    token_secret: Seq<char>,
) -> Seq<char> {
    let key = signing_key(consumer_secret, token_secret);
    match method {
        SignatureMethod::HmacSha1 => digest_text(
            hmac_sha1_digest(encode_utf8(key), encode_utf8(base_string)),
        ),
        SignatureMethod::Plaintext => percent_encoded(key),
    }
}

/// With `Plaintext` no hashing takes place: whatever the base string, the
/// signature is the percent-encoded signing key.
pub proof fn lemma_plaintext_signature(
    base_string: Seq<char>,
    consumer_secret: Seq<char>,
    token_secret: Seq<char>,
)
    ensures
        signature_text(base_string, SignatureMethod::Plaintext, consumer_secret, token_secret)
            == percent_encoded(
            (percent_encoded(consumer_secret) + seq!['&']) + percent_encoded(token_secret),
        ),
{
}

/// Different secrets give different signing keys.
pub proof fn lemma_signing_key_injective(
    consumer_a: Seq<char>,
    token_a: Seq<char>,
    consumer_b: Seq<char>,
    token_b: Seq<char>,
)
    requires
        signing_key(consumer_a, token_a) == signing_key(consumer_b, token_b),
    ensures
        consumer_a == consumer_b,
        token_a == token_b,
{
    lemma_percent_encoded_is_encoded_text(token_a);
    lemma_percent_encoded_is_encoded_text(token_b);
    lemma_encoded_text_has_no_separator(percent_encoded(token_a));
    lemma_encoded_text_has_no_separator(percent_encoded(token_b));
    lemma_split_last(
        percent_encoded(consumer_a),
        percent_encoded(token_a),
        percent_encoded(consumer_b),
        percent_encoded(token_b),
        '&',
    );
    lemma_percent_encoded_injective(consumer_a, consumer_b);
    lemma_percent_encoded_injective(token_a, token_b);
}

/// Different secrets give different `Plaintext` signatures.
pub proof fn lemma_plaintext_signature_injective(
    base_a: Seq<char>,
    consumer_a: Seq<char>,
    token_a: Seq<char>,
    base_b: Seq<char>,
    consumer_b: Seq<char>,
    token_b: Seq<char>,
)
    requires
        signature_text(base_a, SignatureMethod::Plaintext, consumer_a, token_a) == signature_text(
            base_b,
            SignatureMethod::Plaintext,
            consumer_b,
            token_b,
        ),
    ensures
        consumer_a == consumer_b,
        token_a == token_b,
{
    lemma_percent_encoded_injective(
        signing_key(consumer_a, token_a),
        signing_key(consumer_b, token_b),
    );
    lemma_signing_key_injective(consumer_a, token_a, consumer_b, token_b);
}

/// The signature text of a code loses nothing of it: different codes have
/// different texts.
pub proof fn lemma_digest_text_injective(a: Seq<u8>, b: Seq<u8>)
    ensures
        digest_text(a) == digest_text(b) ==> a == b,
{
    if digest_text(a) == digest_text(b) {
        lemma_percent_encoded_injective(base64(a), base64(b));
        lemma_base64_injective(a, b);
    }
}

/// With `HmacSha1` two signatures are the same only where HMAC-SHA1 gives
/// the two base strings the same code under their keys.
pub proof fn lemma_hmac_signature_keeps_code(
    base_a: Seq<char>,
    consumer_a: Seq<char>,
    token_a: Seq<char>,
    base_b: Seq<char>,
    consumer_b: Seq<char>,
    token_b: Seq<char>,
)
    ensures
        signature_text(base_a, SignatureMethod::HmacSha1, consumer_a, token_a) == signature_text(
            base_b,
            SignatureMethod::HmacSha1,
            consumer_b,
            token_b,
        ) ==> hmac_sha1_digest(
            encode_utf8(signing_key(consumer_a, token_a)),
            encode_utf8(base_a),
        ) == hmac_sha1_digest(encode_utf8(signing_key(consumer_b, token_b)), encode_utf8(base_b)),
{
    lemma_digest_text_injective(
        hmac_sha1_digest(encode_utf8(signing_key(consumer_a, token_a)), encode_utf8(base_a)),
        hmac_sha1_digest(encode_utf8(signing_key(consumer_b, token_b)), encode_utf8(base_b)),
    );
}

/// Builds the signing key from the two secrets.
pub fn make_signing_key(consumer_secret: &str, token_secret: &Option<String>) -> (key: String)
    ensures
        key@ == signing_key(consumer_secret@, secret_text(*token_secret)),
{
    let mut key = percent_encode(consumer_secret);
    key.push('&');
    match token_secret {
        Some(secret) => {
            let encoded = percent_encode(secret.as_str());
            key.append(encoded.as_str());
        },
        None => {
            proof {
                assert(percent_encoded(Seq::empty()) == Seq::<char>::empty()) by {
                    assert(encode_utf8(Seq::empty()) == Seq::<u8>::empty());
                }
                assert(key@ + Seq::<char>::empty() == key@);
            }
        },
    }
    key
}

/// Renders a message authentication code as signature text.
pub fn encode_digest(digest: &[u8]) -> (r: String)
    ensures
        r@ == digest_text(digest@),
{
    let text = base64_encode(digest);
    percent_encode(text.as_str())
}

/// Signs a signature base string. With `HmacSha1` the signature is the
/// HMAC-SHA1 code of the base string under the signing key, in base64 and
/// percent-encoded; with `Plaintext` it is the percent-encoded signing key.
pub fn signature(
    base_string: String,
    method: SignatureMethod,
    consumer_secret: String,
    token_secret: Option<String>,
) -> (r: String)
    ensures
        r@ == signature_text(base_string@, method, consumer_secret@, secret_text(token_secret)),
{
    let key = make_signing_key(consumer_secret.as_str(), &token_secret);
    match method {
        SignatureMethod::HmacSha1 => {
            let digest = hmac_sha1(key.as_str().as_bytes(), base_string.as_str().as_bytes());
            encode_digest(digest.as_slice())
        },
        SignatureMethod::Plaintext => percent_encode(key.as_str()),
    }
}

} // verus!
