use oauth_sig::uri::{base_string_uri, Error, Uri};

fn uri(scheme: &str, host: &str, port: Option<u16>, path: &str) -> Uri {
    Uri {
        scheme: scheme.to_string(),
        host: host.to_string(),
        port,
        path: path.to_string(),
        query: Vec::new(),
    }
}

#[test]
fn base_string_lowers_scheme_and_host() {
    assert_eq!(
        base_string_uri(uri("HTTP", "EXAMPLE.COM", None, "/r%20v/X")).as_str(),
        "http://example.com/r%20v/X"
    );
    assert_eq!(
        base_string_uri(uri("hTTps", "Www.Example.NET", None, "/Path")),
        base_string_uri(uri("https", "www.example.net", None, "/Path"))
    );
}

#[test]
fn base_string_keeps_the_path_as_it_is() {
    assert_eq!(
        base_string_uri(uri("http", "h", None, "/A%2fb/%7Euser")).as_str(),
        "http://h/A%2fb/%7Euser"
    );
}

#[test]
fn base_string_gives_an_empty_path_a_slash() {
    assert_eq!(
        base_string_uri(uri("http", "example.com", None, "")).as_str(),
        "http://example.com/"
    );
    assert_eq!(
        base_string_uri(uri("http", "example.com", Some(81), "")).as_str(),
        "http://example.com:81/"
    );
}

#[test]
fn base_string_drops_default_ports() {
    assert_eq!(base_string_uri(uri("http", "h", Some(80), "/")).as_str(), "http://h/");
    assert_eq!(base_string_uri(uri("HTTP", "h", Some(80), "/")).as_str(), "http://h/");
    assert_eq!(base_string_uri(uri("https", "h", Some(443), "/")).as_str(), "https://h/");
    assert_eq!(base_string_uri(uri("HttpS", "h", Some(443), "/")).as_str(), "https://h/");
}

#[test]
fn base_string_keeps_other_ports() {
    assert_eq!(base_string_uri(uri("http", "h", Some(443), "/")).as_str(), "http://h:443/");
    assert_eq!(base_string_uri(uri("https", "h", Some(80), "/")).as_str(), "https://h:80/");
    assert_eq!(base_string_uri(uri("http", "h", Some(8080), "/")).as_str(), "http://h:8080/");
    assert_eq!(base_string_uri(uri("http", "h", Some(0), "/")).as_str(), "http://h:0/");
    assert_eq!(base_string_uri(uri("ftp", "h", Some(80), "/")).as_str(), "ftp://h:80/");
    assert_eq!(base_string_uri(uri("ws", "h", Some(65535), "/x")).as_str(), "ws://h:65535/x");
}

#[test]
fn base_string_ignores_the_query() {
    let mut with_query = uri("http", "example.com", None, "/p");
    with_query.query.push(("a".to_string(), "1".to_string()));
    assert_eq!(
        base_string_uri(with_query),
        base_string_uri(uri("http", "example.com", None, "/p"))
    );
}

#[test]
fn parse_reads_the_parts() {
    let u = Uri::parse("HTTP://EXAMPLE.COM:8080/r%20v/X?id=123&q=a%20b#top").unwrap();
    assert_eq!(u.scheme, "http");
    assert_eq!(u.host, "example.com");
    assert_eq!(u.port, Some(8080));
    assert_eq!(u.path, "/r%20v/X");
    assert_eq!(
        u.query,
        vec![("id".to_string(), "123".to_string()), ("q".to_string(), "a b".to_string())]
    );
}

#[test]
fn parse_then_base_string_drops_query_and_fragment() {
    assert_eq!(
        base_string_uri(Uri::parse("https://Example.org:443/a/b?x=1#frag").unwrap()).as_str(),
        "https://example.org/a/b"
    );
    assert_eq!(
        base_string_uri(Uri::parse("http://example.org").unwrap()).as_str(),
        "http://example.org/"
    );
    assert_eq!(
        base_string_uri(Uri::parse("http://example.org:8000").unwrap()).as_str(),
        "http://example.org:8000/"
    );
}

#[test]
fn parse_rejects_what_is_no_absolute_uri() {
    let texts =
        ["", "/request?x=1", "example.com/path", "//example.com/", "http://", "http://exa mple.com/"];
    for text in texts {
        assert_eq!(Uri::parse(text).err(), Some(Error::InvalidUri));
    }
}

#[test]
fn parse_rejects_a_uri_without_host() {
    for text in ["mailto:someone@example.com", "data:text/plain,Stuff", "unix:/run/foo.socket"] {
        assert_eq!(Uri::parse(text).err(), Some(Error::InvalidUri));
    }
}
