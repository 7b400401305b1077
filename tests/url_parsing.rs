use fetch_engine::error::FetchError;
use fetch_engine::url::{Target, URLHandler};

fn parsed(url: &str) -> URLHandler {
    URLHandler::parse_url(url.as_bytes()).expect("url parses")
}

fn network(t: &Target) -> (Vec<u8>, u16, Vec<u8>, bool) {
    match t {
        Target::Http { host, port, path } => (host.clone(), *port, path.clone(), false),
        Target::Https { host, port, path } => (host.clone(), *port, path.clone(), true),
        other => panic!("not a network target: {:?}", other),
    }
}

#[test]
fn http_url_gets_default_port() {
    let h = parsed("http://example.org/index.html");
    assert_eq!(network(&h.target), (b"example.org".to_vec(), 80, b"/index.html".to_vec(), false));
    assert!(!h.view_source);
}

#[test]
fn https_url_gets_default_port() {
    let h = parsed("https://example.org/a/b");
    assert_eq!(network(&h.target), (b"example.org".to_vec(), 443, b"/a/b".to_vec(), true));
}

#[test]
fn explicit_port_is_read() {
    let h = parsed("http://localhost:8080/x?y=1");
    assert_eq!(network(&h.target), (b"localhost".to_vec(), 8080, b"/x?y=1".to_vec(), false));
}

#[test]
fn missing_path_becomes_root() {
    let h = parsed("http://example.org");
    assert_eq!(network(&h.target), (b"example.org".to_vec(), 80, b"/".to_vec(), false));
}

#[test]
fn cache_key_round_trips_network_urls() {
    for (url, key) in [
        ("http://x:81/y", "http://x:81/y"),
        ("http://x/y", "http://x:80/y"),
        ("https://x/", "https://x:443/"),
        ("https://host.example:65535/p/q", "https://host.example:65535/p/q"),
    ] {
        let h = parsed(url);
        assert_eq!(h.cache_key(), Some(key.as_bytes().to_vec()), "{}", url);
    }
}

#[test]
fn view_source_gives_same_target_with_flag() {
    let plain = parsed("http://x/y");
    let marked = parsed("view-source:http://x/y");
    assert!(marked.view_source);
    assert!(!plain.view_source);
    assert_eq!(network(&plain.target), network(&marked.target));
}

#[test]
fn data_url_with_media_type() {
    let h = parsed("data:text/plain,hello");
    match h.target {
        Target::Data { media_type, data } => {
            assert_eq!(media_type, b"text/plain".to_vec());
            assert_eq!(data, b"hello".to_vec());
        }
        other => panic!("unexpected {:?}", other),
    }
}

#[test]
fn data_url_without_comma_is_plain_text() {
    let h = parsed("data:hello world");
    match h.target {
        Target::Data { media_type, data } => {
            assert_eq!(media_type, b"text/plain".to_vec());
            assert_eq!(data, b"hello world".to_vec());
        }
        other => panic!("unexpected {:?}", other),
    }
}

#[test]
fn about_url_is_placeholder() {
    match parsed("about:blank").target {
        Target::About { data } => assert_eq!(data, b"Blank Page".to_vec()),
        other => panic!("unexpected {:?}", other),
    }
}

#[test]
fn file_url_keeps_path() {
    match parsed("file:///tmp/some.txt").target {
        Target::File { path } => assert_eq!(path, b"/tmp/some.txt".to_vec()),
        other => panic!("unexpected {:?}", other),
    }
}

#[test]
fn malformed_urls_are_rejected() {
    for url in ["no-colon-here", "ftp://x/y", "http:x/y", "http://x:99999/", "http://x:abc/", "view-source"] {
        assert_eq!(
            URLHandler::parse_url(url.as_bytes()).err(),
            Some(FetchError::MalformedUrl),
            "{}",
            url
        );
    }
}

#[test]
fn init_falls_back_to_placeholder() {
    let mut h = URLHandler::default();
    h.init(String::from("gopher://x/"), false);
    match h.target {
        Target::About { data } => assert_eq!(data, b"Blank Page".to_vec()),
        other => panic!("unexpected {:?}", other),
    }
    let mut v = URLHandler::default();
    v.init(String::from("view-source:nonsense"), false);
    assert!(v.view_source);
}

#[test]
fn init_keeps_requested_view_source() {
    let mut h = URLHandler::default();
    h.init(String::from("http://x/y"), true);
    assert!(h.view_source);
    assert_eq!(network(&h.target), (b"x".to_vec(), 80, b"/y".to_vec(), false));
}

#[test]
fn empty_data_url() {
    match parsed("data:,").target {
        Target::Data { media_type, data } => {
            assert!(media_type.is_empty());
            assert!(data.is_empty());
        }
        other => panic!("unexpected {:?}", other),
    }
}
