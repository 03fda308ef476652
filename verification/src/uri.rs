//! Request URIs and their base string form.

use vstd::prelude::*;
use crate::order::Pair;
use crate::params::texts;
use crate::text::{decimal, lowered, push_decimal, to_lower};

verus! {

/// The one way in which signing can fail.
#[derive(Clone, Copy, Debug, PartialEq, Eq, Structural)]
pub enum Error {
    /// The text is not a well-formed absolute URI with a host.
    InvalidUri,
}

/// The parts of a request URI that signing reads. The query is held as
/// its decoded name and value pairs; the fragment is not held at all.
#[derive(Clone, Debug)]
pub struct Uri {
    pub scheme: String,
    pub host: String,
    pub port: Option<u16>,
    pub path: String,
    pub query: Vec<(String, String)>,
}

/// A URI as plain texts.
pub struct UriView {
    pub scheme: Seq<char>,
    pub host: Seq<char>,
    pub port: Option<u16>,
    pub path: Seq<char>,
    pub query: Seq<Pair>,
}

impl View for Uri {
    type V = UriView;

    open spec fn view(&self) -> UriView {
        UriView {
            scheme: self.scheme@,
            host: self.host@,
            port: self.port,
            path: self.path@,
            query: texts(self.query@),
        }
    }
}

/// `url::ParseError`, the reason for which the `url` crate rejects a text.
/// It is carried from the parser to `Uri::parse`; nothing is known of it.
#[verifier::external_type_specification]
#[verifier::external_body]
pub struct ExParseError(url::ParseError);

/// What the `url` crate reads out of a text: for a text that it accepts as
/// an absolute URL, the scheme, the host if there is one, the port if one
/// is kept, the path, and the decoded pairs of the query in their order;
/// `None` for a text that it rejects.
pub uninterp spec fn parsed_url(text: Seq<char>) -> Option<
    (Seq<char>, Option<Seq<char>>, Option<u16>, Seq<char>, Seq<(Seq<char>, Seq<char>)>),
>;

/// Calls `url::Url::parse` and hands out the scheme, host, port, path and
/// query pairs of the URL it returns, as `Url::scheme`, `Url::host_str`,
/// `Url::port`, `Url::path` and `Url::query_pairs` give them. The parser's
/// verdict and these parts are a function of the text alone; nothing more
/// is claimed of them.
#[verifier::external_body]
fn parse_url(text: &str) -> (r: Result<
    (String, Option<String>, Option<u16>, String, Vec<(String, String)>),
    url::ParseError,
>)
    ensures
        match r {
            Ok(parts) => parsed_url(text@) == Some(
                (parts.0@, host_text(parts.1), parts.2, parts.3@, texts(parts.4@)),
            ),
            Err(_) => parsed_url(text@) is None,
        },
{
    let u = url::Url::parse(text)?;
    let host = match u.host_str() {
        Some(h) => Some(h.to_string()),
        None => None,
    };
    let query = u.query_pairs().map(|(k, v)| (k.into_owned(), v.into_owned())).collect();
    Ok((u.scheme().to_string(), host, u.port(), u.path().to_string(), query))
}

/// The text of a host that may be absent.
pub open spec fn host_text(host: Option<String>) -> Option<Seq<char>> {
    match host {
        Some(h) => Some(h@),
        None => None,
    }
}

/// The URI that a text stands for: what the parser read, if it read a host.
pub open spec fn parsed_uri(text: Seq<char>) -> Option<UriView> {
    match parsed_url(text) {
        Some((scheme, Some(host), port, path, query)) => Some(
            UriView { scheme, host, port, path, query },
        ),
        _ => None,
    }
}

/// Whether the port is the one that the scheme implies.
pub open spec fn is_default_port(scheme: Seq<char>, port: u16) -> bool {
    (scheme == "http"@ && port == 80) || (scheme == "https"@ && port == 443)
}

/// The port as it appears in the base string: nothing for no port or the
/// scheme's default, else `:` and the number.
pub open spec fn port_text(scheme: Seq<char>, port: Option<u16>) -> Seq<char> {
    match port {
        Some(p) => if is_default_port(scheme, p) {
            Seq::empty()
        } else {
            seq![':'] + decimal(p as nat)
        },
        None => Seq::empty(),
    }
}

/// The path as it appears in the base string: `/` for an empty one.
pub open spec fn path_text(path: Seq<char>) -> Seq<char> {
    if path.len() == 0 {
        seq!['/']
    } else {
        path
    }
}

/// The base string form of a URI: `scheme://host[:port]path` with scheme
/// and host in lower case.
pub open spec fn base_string(uri: UriView) -> Seq<char> {
    lowered(uri.scheme) + "://"@ + lowered(uri.host) + port_text(lowered(uri.scheme), uri.port)
        + path_text(uri.path)
}

/// The base string does not tell apart URIs that differ only in the case
/// of scheme and host or in their query.
pub proof fn lemma_base_string_ignores_case_and_query(a: UriView, b: UriView)
    requires
        lowered(a.scheme) == lowered(b.scheme),
        lowered(a.host) == lowered(b.host),
        a.port == b.port,
        a.path == b.path,
    ensures
        base_string(a) == base_string(b),
{
}

/// A port that is the default of the scheme is left out: the base string
/// is that of the URI without a port.
pub proof fn lemma_base_string_drops_default_port(uri: UriView, port: u16)
    requires
        uri.port == Some(port),
        is_default_port(lowered(uri.scheme), port),
    ensures
        base_string(uri) == base_string(UriView { port: None, ..uri }),
{
}

/// Any other port stays, written in decimal after a colon.
pub proof fn lemma_base_string_keeps_other_port(uri: UriView, port: u16)
    requires
        uri.port == Some(port),
        !is_default_port(lowered(uri.scheme), port),
    ensures
        base_string(uri) == lowered(uri.scheme) + "://"@ + lowered(uri.host) + seq![':']
            + decimal(port as nat) + path_text(uri.path),
{
    let front = lowered(uri.scheme) + "://"@ + lowered(uri.host);
    assert(front + (seq![':'] + decimal(port as nat)) == front + seq![':'] + decimal(port as nat));
}

impl Uri {
    /// Reads a URI from a text. Fails exactly on a text that is no
    /// absolute URI or names no host.
    pub fn parse(text: &str) -> (r: Result<Uri, Error>)
        ensures
            match r {
                Ok(uri) => parsed_uri(text@) == Some(uri@),
                Err(e) => e == Error::InvalidUri && parsed_uri(text@) is None,
            },
    {
        match parse_url(text) {
            Ok((scheme, Some(host), port, path, query)) => Ok(
                Uri { scheme, host, port, path, query },
            ),
            Ok((_, None, _, _, _)) => Err(Error::InvalidUri),
            Err(_) => Err(Error::InvalidUri),
        }
    }
}

fn default_port(scheme: &String, port: u16) -> (r: bool)
    ensures
        r == is_default_port(scheme@, port),
{
    let http = String::from_str("http");
    let https = String::from_str("https");
    (port == 80 && *scheme == http) || (port == 443 && *scheme == https)
}

/// Normalizes a URI for signing: scheme and host in lower case, the port
/// only where it is not the scheme's default, `/` for an empty path.
pub fn base_string_uri(uri: Uri) -> (r: String)
    ensures
        r@ == base_string(uri@),
{
    let scheme = to_lower(uri.scheme.as_str());
    let host = to_lower(uri.host.as_str());
    let mut out = String::new();
    out.append(scheme.as_str());
    out.append("://");
    out.append(host.as_str());
    match uri.port {
        Some(p) => {
            if !default_port(&scheme, p) {
                out.push(':');
                push_decimal(&mut out, p);
            }
        },
        None => {},
    }
    if uri.path.as_str().is_empty() {
        out.push('/');
    } else {
        out.append(uri.path.as_str());
    }
    out
}

} // verus!
