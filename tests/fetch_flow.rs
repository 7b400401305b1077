use std::io::Write;

use fetch_engine::cache::ResponseCache;
use fetch_engine::decode::{decode_body, text_of};
use fetch_engine::error::FetchError;
use fetch_engine::fetch::{Action, Fetch, REDIRECT_LIMIT};
use fetch_engine::http::Response;
use fetch_engine::render::{load, parser};
use fetch_engine::url::{Target, URLHandler};

fn handler(url: &str) -> URLHandler {
    URLHandler::resolve(url.as_bytes(), false)
}

fn response(status: &str, headers: &[(&str, &str)], body: &[u8]) -> Response {
    Response {
        status: status.as_bytes().to_vec(),
        headers: headers.iter().map(|(n, v)| (n.as_bytes().to_vec(), v.as_bytes().to_vec())).collect(),
        body: body.to_vec(),
    }
}

fn gzip(text: &str) -> Vec<u8> {
    let mut e = flate2::write::GzEncoder::new(Vec::new(), flate2::Compression::default());
    e.write_all(text.as_bytes()).unwrap();
    e.finish().unwrap()
}

#[test]
fn data_url_is_delivered_without_network() {
    let cache = ResponseCache::new();
    let f = Fetch::new(handler("data:text/plain,hello"));
    match f.next_action(&cache, 0) {
        Action::Deliver(s) => assert_eq!(s, "hello"),
        other => panic!("unexpected {:?}", other),
    }
}

#[test]
fn file_url_asks_for_a_read() {
    let cache = ResponseCache::new();
    match Fetch::new(handler("file:///etc/hosts")).next_action(&cache, 0) {
        Action::ReadFile { path } => assert_eq!(path, b"/etc/hosts".to_vec()),
        other => panic!("unexpected {:?}", other),
    }
}

#[test]
fn network_url_connects_then_hits_cache() {
    let mut cache = ResponseCache::new();
    let mut f = Fetch::new(handler("https://example.org:8443/a"));
    match f.next_action(&cache, 10) {
        Action::Connect { host, port, tls, request } => {
            assert_eq!(host, b"example.org".to_vec());
            assert_eq!(port, 8443);
            assert!(tls);
            assert!(request.starts_with(b"GET /a HTTP/1.1\r\nHost: example.org\r\n"));
        }
        other => panic!("unexpected {:?}", other),
    }
    match f.on_response(response("200", &[("content-length", "2")], b"hi"), &mut cache, 10) {
        Action::Deliver(s) => assert_eq!(s, "hi"),
        other => panic!("unexpected {:?}", other),
    }
    match Fetch::new(handler("https://example.org:8443/a")).next_action(&cache, 99999) {
        Action::Deliver(s) => assert_eq!(s, "hi"),
        other => panic!("unexpected {:?}", other),
    }
}

#[test]
fn relative_redirect_keeps_host_and_port() {
    let mut cache = ResponseCache::new();
    let mut f = Fetch::new(handler("http://x:8080/old"));
    match f.on_response(response("301", &[("location", "/new")], b""), &mut cache, 0) {
        Action::Connect { host, port, tls, request } => {
            assert_eq!(host, b"x".to_vec());
            assert_eq!(port, 8080);
            assert!(!tls);
            assert!(request.starts_with(b"GET /new HTTP/1.1\r\n"));
        }
        other => panic!("unexpected {:?}", other),
    }
    assert_eq!(f.redirects, 1);
    match &f.handler.target {
        Target::Http { path, .. } => assert_eq!(path, &b"/new".to_vec()),
        other => panic!("unexpected {:?}", other),
    }
}

#[test]
fn absolute_redirect_resolves_anew() {
    let mut cache = ResponseCache::new();
    let mut f = Fetch::new(handler("http://x/old"));
    match f.on_response(response("302", &[("location", "https://y/z")], b""), &mut cache, 0) {
        Action::Connect { host, port, tls, .. } => {
            assert_eq!(host, b"y".to_vec());
            assert_eq!(port, 443);
            assert!(tls);
        }
        other => panic!("unexpected {:?}", other),
    }
}

#[test]
fn redirect_without_location_fails() {
    let mut cache = ResponseCache::new();
    let mut f = Fetch::new(handler("http://x/old"));
    match f.on_response(response("301", &[], b""), &mut cache, 0) {
        Action::Fail(e) => assert_eq!(e, FetchError::ProtocolError),
        other => panic!("unexpected {:?}", other),
    }
}

#[test]
fn too_many_redirects_fail_without_caching() {
    let mut cache = ResponseCache::new();
    let mut f = Fetch::new(handler("http://x/0"));
    let mut last = None;
    for i in 1..=(REDIRECT_LIMIT + 1) {
        let loc = format!("/{}", i);
        let a = f.on_response(response("301", &[("location", loc.as_str())], b""), &mut cache, 0);
        if let Action::Fail(e) = a {
            last = Some((i, e));
            break;
        }
    }
    assert_eq!(last, Some((REDIRECT_LIMIT + 1, FetchError::TooManyRedirects)));
    for i in 0..=REDIRECT_LIMIT {
        let key = format!("http://x:80/{}", i);
        assert_eq!(cache.check_cache(key.as_bytes(), 0), None);
    }
}

#[test]
fn gzip_body_is_decoded() {
    let body = gzip("some plain text");
    assert_ne!(body, b"some plain text".to_vec());
    let headers = vec![(b"content-encoding".to_vec(), b"gzip".to_vec())];
    assert_eq!(decode_body(&headers, body), Ok(String::from("some plain text")));
}

#[test]
fn corrupted_gzip_is_encoding_error() {
    let mut body = gzip("some plain text");
    let n = body.len();
    body[n / 2] ^= 0xff;
    body.truncate(n - 4);
    let headers = vec![(b"content-encoding".to_vec(), b"gzip".to_vec())];
    assert_eq!(decode_body(&headers, body), Err(FetchError::EncodingError));
    assert_eq!(decode_body(&headers, b"plain".to_vec()), Err(FetchError::EncodingError));
}

#[test]
fn unsupported_encoding_is_reported() {
    let headers = vec![(b"content-encoding".to_vec(), b"br".to_vec())];
    assert_eq!(decode_body(&headers, b"abc".to_vec()), Err(FetchError::EncodingError));
}

#[test]
fn gzip_response_is_delivered_and_cached() {
    let mut cache = ResponseCache::new();
    let mut f = Fetch::new(handler("http://x/g"));
    let r = response("200", &[("content-encoding", "gzip")], &gzip("zipped"));
    match f.on_response(r, &mut cache, 5) {
        Action::Deliver(s) => assert_eq!(s, "zipped"),
        other => panic!("unexpected {:?}", other),
    }
    assert_eq!(cache.check_cache(b"http://x:80/g", 6), Some(String::from("zipped")));
}

#[test]
fn invalid_utf8_is_encoding_error() {
    assert_eq!(text_of(vec![0xff, 0xfe]), Err(FetchError::EncodingError));
    assert_eq!(text_of("héllo".as_bytes().to_vec()), Ok(String::from("héllo")));
}

#[test]
fn parser_strips_tags_and_entities() {
    assert_eq!(parser(String::from("<p>a &lt;b&gt; &amp; &quot;c&quot; &apos;d&apos;</p>"), false), "a <b> & \"c\" 'd'");
    assert_eq!(parser(String::from("x &nbsp; y"), false), "x &nbsp; y");
    assert_eq!(parser(String::from("<b>bold</b>"), true), "<b>bold</b>");
    assert_eq!(parser(String::from("tail &amp"), false), "tail ");
}

#[test]
fn load_follows_view_source_flag() {
    let plain = handler("http://x/");
    let source = URLHandler::resolve(b"view-source:http://x/", false);
    assert_eq!(load(&plain, String::from("<i>é</i>")), "é");
    assert_eq!(load(&source, String::from("<i>é</i>")), "<i>é</i>");
}
