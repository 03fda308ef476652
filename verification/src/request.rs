//! The protocol parameters of a request and the signature base string.

use vstd::prelude::*;
use vstd::seq_lib::lemma_multiset_commutative;
use crate::encode::{lemma_percent_encoded_injective, percent_encode, percent_encoded};
use crate::method::SignatureMethod;
use crate::order::Pair;
use crate::params::{lemma_normalized_injective, normalize_parameters, normalized, texts};
use crate::permute::{lemma_filter_count, lemma_update_drops_one};
use crate::text::{to_upper, uppered};
use crate::uri::{base_string, base_string_uri, Uri, UriView};

verus! {

/// The text of an optional value.
pub open spec fn optional_text(value: Option<String>) -> Option<Seq<char>> {
    match value {
        Some(v) => Some(v@),
        None => None,
    }
}

/// One pair where the value is present, none where it is absent.
pub open spec fn optional_pair(name: Seq<char>, value: Option<Seq<char>>) -> Seq<Pair> {
    match value {
        Some(v) => seq![(name, v)],
        None => Seq::empty(),
    }
}

/// The version pair, whose value is always `1.0`, where a version is asked for.
pub open spec fn version_pair(version: Option<Seq<char>>) -> Seq<Pair> {
    match version {
        Some(_) => seq![("oauth_version"@, "1.0"@)],
        None => Seq::empty(),
    }
}

/// The protocol parameters of a signing request, in the order in which
/// `oauth_parameters` takes them.
pub open spec fn oauth_parameter_texts(
    realm: Option<Seq<char>>,
    consumer_key: Seq<char>,
    token: Option<Seq<char>>,
    method: SignatureMethod,
    timestamp: Seq<char>,
    nonce: Seq<char>,
    callback: Option<Seq<char>>,
    version: Option<Seq<char>>,
) -> Seq<Pair> {
    optional_pair("realm"@, realm) + seq![("oauth_consumer_key"@, consumer_key)] + optional_pair(
        "oauth_token"@,
        token,
    ) + seq![
        ("oauth_signature_method"@, method.token()),
        ("oauth_timestamp"@, timestamp),
        ("oauth_nonce"@, nonce),
    ] + optional_pair("oauth_callback"@, callback) + version_pair(version)
}

/// Whether a protocol parameter takes part in signing: all do but the
/// realm and the signature itself.
pub open spec fn is_signed(p: Pair) -> bool {
    p.0 != "realm"@ && p.0 != "oauth_signature"@
}

/// The parameters that are signed: those of the URI's query, the
/// request's other parameters, and the protocol parameters that take part.
pub open spec fn signed_parameters(
    query: Seq<Pair>,
    params: Seq<Pair>,
    oauth_params: Seq<Pair>,
) -> Seq<Pair> {
    (query + params) + oauth_params.filter(|p: Pair| is_signed(p))
}

/// The signature base string: the method in capitals, the encoded base
/// string URI and the encoded normalized parameters, with `&` between.
pub open spec fn signature_base_text(
    method: Seq<char>,
    uri: UriView,
    params: Seq<Pair>,
    oauth_params: Seq<Pair>,
) -> Seq<char> {
    (((uppered(method) + seq!['&']) + percent_encoded(base_string(uri))) + seq!['&'])
        + percent_encoded(normalized(signed_parameters(uri.query, params, oauth_params)))
}

/// For one method and one base string URI, the signature base string
/// tells which parameters were signed, and how often each: requests with
/// the same base string have the same signed parameters up to their order.
pub proof fn lemma_base_text_determines_parameters(
    method: Seq<char>,
    uri_a: UriView,
    params_a: Seq<Pair>,
    oauth_a: Seq<Pair>,
    uri_b: UriView,
    params_b: Seq<Pair>,
    oauth_b: Seq<Pair>,
)
    requires
        base_string(uri_a) == base_string(uri_b),
        signature_base_text(method, uri_a, params_a, oauth_a) == signature_base_text(
            method,
            uri_b,
            params_b,
            oauth_b,
        ),
    ensures
        signed_parameters(uri_a.query, params_a, oauth_a).to_multiset() == signed_parameters(
            uri_b.query,
            params_b,
            oauth_b,
        ).to_multiset(),
{
    let front = ((uppered(method) + seq!['&']) + percent_encoded(base_string(uri_a))) + seq!['&'];
    let na = normalized(signed_parameters(uri_a.query, params_a, oauth_a));
    let nb = normalized(signed_parameters(uri_b.query, params_b, oauth_b));
    let ta = front + percent_encoded(na);
    let tb = front + percent_encoded(nb);
    assert(ta == tb);
    assert(percent_encoded(na) =~= ta.skip(front.len() as int));
    assert(percent_encoded(nb) =~= tb.skip(front.len() as int));
    lemma_percent_encoded_injective(na, nb);
    lemma_normalized_injective(
        signed_parameters(uri_a.query, params_a, oauth_a),
        signed_parameters(uri_b.query, params_b, oauth_b),
    );
}

/// How often a pair is signed: as often as the query and the request's
/// other parameters hold it, and as often again as the protocol parameters
/// hold it, unless it is one that is left out.
pub proof fn lemma_signed_count(
    query: Seq<Pair>,
    params: Seq<Pair>,
    oauth_params: Seq<Pair>,
    p: Pair,
)
    ensures
        signed_parameters(query, params, oauth_params).to_multiset().count(p)
            == query.to_multiset().count(p) + params.to_multiset().count(p) + if is_signed(p) {
            oauth_params.to_multiset().count(p)
        } else {
            0
        },
{
    let keep = |q: Pair| is_signed(q);
    lemma_multiset_commutative(query + params, oauth_params.filter(keep));
    lemma_multiset_commutative(query, params);
    lemma_filter_count(oauth_params, keep, p);
}

/// Changing the value of one request parameter changes the signature base
/// string.
pub proof fn lemma_value_change_changes_base_text(
    method: Seq<char>,
    uri: UriView,
    params: Seq<Pair>,
    oauth_params: Seq<Pair>,
    i: int,
    value: Seq<char>,
)
    requires
        0 <= i < params.len(),
        value != params[i].1,
    ensures
        signature_base_text(method, uri, params.update(i, (params[i].0, value)), oauth_params)
            != signature_base_text(method, uri, params, oauth_params),
{
    let changed = params.update(i, (params[i].0, value));
    if signature_base_text(method, uri, changed, oauth_params) == signature_base_text(
        method,
        uri,
        params,
        oauth_params,
    ) {
        lemma_base_text_determines_parameters(
            method,
            uri,
            changed,
            oauth_params,
            uri,
            params,
            oauth_params,
        );
        lemma_signed_count(uri.query, changed, oauth_params, params[i]);
        lemma_signed_count(uri.query, params, oauth_params, params[i]);
        lemma_update_drops_one(params, i, (params[i].0, value));
    }
}

/// Changing the value of one pair of the URI's query changes the signature
/// base string.
pub proof fn lemma_query_change_changes_base_text(
    method: Seq<char>,
    uri: UriView,
    params: Seq<Pair>,
    oauth_params: Seq<Pair>,
    i: int,
    value: Seq<char>,
)
    requires
        0 <= i < uri.query.len(),
        value != uri.query[i].1,
    ensures
        signature_base_text(
            method,
            UriView { query: uri.query.update(i, (uri.query[i].0, value)), ..uri },
            params,
            oauth_params,
        ) != signature_base_text(method, uri, params, oauth_params),
{
    let changed = uri.query.update(i, (uri.query[i].0, value));
    let other = UriView { query: changed, ..uri };
    if signature_base_text(method, other, params, oauth_params) == signature_base_text(
        method,
        uri,
        params,
        oauth_params,
    ) {
        lemma_base_text_determines_parameters(
            method,
            other,
            params,
            oauth_params,
            uri,
            params,
            oauth_params,
        );
        lemma_signed_count(changed, params, oauth_params, uri.query[i]);
        lemma_signed_count(uri.query, params, oauth_params, uri.query[i]);
        lemma_update_drops_one(uri.query, i, (uri.query[i].0, value));
    }
}

/// Changing the value of one protocol parameter that is signed changes
/// the signature base string.
pub proof fn lemma_oauth_change_changes_base_text(
    method: Seq<char>,
    uri: UriView,
    params: Seq<Pair>,
    oauth_params: Seq<Pair>,
    i: int,
    value: Seq<char>,
)
    requires
        0 <= i < oauth_params.len(),
        is_signed(oauth_params[i]),
        value != oauth_params[i].1,
    ensures
        signature_base_text(
            method,
            uri,
            params,
            oauth_params.update(i, (oauth_params[i].0, value)),
        ) != signature_base_text(method, uri, params, oauth_params),
{
    let changed = oauth_params.update(i, (oauth_params[i].0, value));
    if signature_base_text(method, uri, params, changed) == signature_base_text(
        method,
        uri,
        params,
        oauth_params,
    ) {
        lemma_base_text_determines_parameters(
            method,
            uri,
            params,
            changed,
            uri,
            params,
            oauth_params,
        );
        lemma_signed_count(uri.query, params, changed, oauth_params[i]);
        lemma_signed_count(uri.query, params, oauth_params, oauth_params[i]);
        lemma_update_drops_one(oauth_params, i, (oauth_params[i].0, value));
    }
}

fn push_optional(out: &mut Vec<(String, String)>, name: &str, value: Option<String>)
    ensures
        texts(final(out)@) == texts(old(out)@) + optional_pair(name@, optional_text(value)),
{
    match value {
        Some(v) => {
            out.push((String::from_str(name), v));
            assert(texts(out@) == texts(old(out)@).push((name@, v@)));
        },
        None => {
            assert(texts(out@) + Seq::<Pair>::empty() == texts(out@));
        },
    }
}

fn push_pair(out: &mut Vec<(String, String)>, name: &str, value: String)
    ensures
        texts(final(out)@) == texts(old(out)@) + seq![(name@, value@)],
{
    out.push((String::from_str(name), value));
    assert(texts(out@) == texts(old(out)@).push((name@, value@)));
}

/// Puts together the protocol parameters of a signing request. Timestamp
/// and nonce are the caller's; the version, where one is asked for, is `1.0`.
pub fn oauth_parameters(
    realm: Option<String>,
    consumer_key: String,
    token: Option<String>,
    method: SignatureMethod,
    timestamp: String,
    nonce: String,
    callback: Option<String>,
    version: Option<String>,
) -> (r: Vec<(String, String)>)
    ensures
        texts(r@) == oauth_parameter_texts(
            optional_text(realm),
            consumer_key@,
            optional_text(token),
            method,
            timestamp@,
            nonce@,
            optional_text(callback),
            optional_text(version),
        ),
{
    let mut out: Vec<(String, String)> = Vec::new();
    assert(texts(out@) == Seq::<Pair>::empty());
    push_optional(&mut out, "realm", realm);
    push_pair(&mut out, "oauth_consumer_key", consumer_key);
    push_optional(&mut out, "oauth_token", token);
    push_pair(&mut out, "oauth_signature_method", method.to_string());
    push_pair(&mut out, "oauth_timestamp", timestamp);
    push_pair(&mut out, "oauth_nonce", nonce);
    push_optional(&mut out, "oauth_callback", callback);
    match version {
        Some(_) => {
            push_pair(&mut out, "oauth_version", String::from_str("1.0"));
        },
        None => {
            assert(texts(out@) + Seq::<Pair>::empty() == texts(out@));
        },
    }
    out
}

fn signed(p: &(String, String)) -> (r: bool)
    ensures
        r == is_signed((p.0@, p.1@)),
{
    let realm = String::from_str("realm");
    let sig = String::from_str("oauth_signature");
    p.0 != realm && p.0 != sig
}

fn push_all(out: &mut Vec<(String, String)>, more: &[(String, String)])
    ensures
        texts(final(out)@) == texts(old(out)@) + texts(more@),
{
    let ghost start = texts(out@);
    let mut i: usize = 0;
    assert(start + texts(more@).take(0) == start);
    while i < more.len()
        invariant
            i <= more@.len(),
            texts(out@) == start + texts(more@).take(i as int),
        decreases more.len() - i,
    {
        let p = &more[i];
        out.push((p.0.clone(), p.1.clone()));
        assert(texts(more@).take(i + 1) == texts(more@).take(i as int).push((p.0@, p.1@)));
        assert(texts(out@) == (start + texts(more@).take(i as int)).push((p.0@, p.1@)));
        i += 1;
    }
    assert(texts(more@).take(i as int) == texts(more@));
}

/// Gathers the parameters that are signed.
pub fn collect_signed(
    query: &[(String, String)],
    params: &[(String, String)],
    oauth_params: &[(String, String)],
) -> (r: Vec<(String, String)>)
    ensures
        texts(r@) == signed_parameters(texts(query@), texts(params@), texts(oauth_params@)),
{
    let mut out: Vec<(String, String)> = Vec::new();
    assert(texts(out@) + texts(query@) == texts(query@));
    push_all(&mut out, query);
    push_all(&mut out, params);
    let ghost own = texts(query@) + texts(params@);
    let ghost all = texts(oauth_params@);
    let ghost keep = |p: Pair| is_signed(p);
    let mut j: usize = 0;
    proof {
        reveal(Seq::filter);
        assert(all.take(0).filter(keep) == Seq::<Pair>::empty());
        assert(own + Seq::<Pair>::empty() == own);
    }
    while j < oauth_params.len()
        invariant
            j <= oauth_params@.len(),
            all == texts(oauth_params@),
            keep == |p: Pair| is_signed(p),
            texts(out@) == own + all.take(j as int).filter(keep),
        decreases oauth_params.len() - j,
    {
        let p = &oauth_params[j];
        proof {
            reveal(Seq::filter);
            let next = all.take(j + 1);
            assert(next.drop_last() == all.take(j as int));
            assert(next.last() == (p.0@, p.1@));
        }
        if signed(p) {
            out.push((p.0.clone(), p.1.clone()));
            assert(texts(out@) == (own + all.take(j as int).filter(keep)).push((p.0@, p.1@)));
        }
        j += 1;
    }
    assert(all.take(j as int) == all);
    out
}

/// Assembles the signature base string of a request from its method, its
/// URI, its parameters from elsewhere than the URI, and the protocol
/// parameters. The pairs of the URI's query are signed with the others; of
/// the protocol parameters, the realm and the signature are left out.
pub fn signature_base_string(
    method: &str,
    uri: Uri,
    params: &[(String, String)],
    oauth_params: Vec<(String, String)>,
) -> (r: String)
    ensures
        r@ == signature_base_text(method@, uri@, texts(params@), texts(oauth_params@)),
{
    let all = collect_signed(uri.query.as_slice(), params, oauth_params.as_slice());
    let mut out = to_upper(method);
    out.push('&');
    let base = base_string_uri(uri);
    out.append(percent_encode(base.as_str()).as_str());
    out.push('&');
    let normal = normalize_parameters(all.as_slice());
    out.append(percent_encode(normal.as_str()).as_str());
    out
}

} // verus!
