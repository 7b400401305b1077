use fetch_engine::cache::{should_cache, ResponseCache};

fn headers(cc: Option<&str>) -> Vec<(Vec<u8>, Vec<u8>)> {
    match cc {
        Some(v) => vec![(b"cache-control".to_vec(), v.as_bytes().to_vec())],
        None => vec![],
    }
}

#[test]
fn only_ok_status_is_cached() {
    assert_eq!(should_cache(&headers(None), b"200"), (true, None));
    assert_eq!(should_cache(&headers(None), b"404"), (false, None));
    assert_eq!(should_cache(&headers(None), b"2000"), (false, None));
}

#[test]
fn max_age_directives() {
    assert_eq!(should_cache(&headers(Some("max-age=0")), b"200"), (true, Some(0)));
    assert_eq!(should_cache(&headers(Some("public, max-age=60")), b"200"), (true, Some(60)));
    assert_eq!(should_cache(&headers(Some("max-age=abc")), b"200"), (false, None));
    assert_eq!(should_cache(&headers(Some("max-age=x, max-age=7")), b"200"), (true, Some(7)));
    assert_eq!(should_cache(&headers(Some("s-maxage=5, max-age")), b"200"), (false, None));
}

#[test]
fn no_store_wins() {
    assert_eq!(should_cache(&headers(Some("no-store")), b"200"), (false, None));
    assert_eq!(should_cache(&headers(Some("max-age=60, no-store")), b"200"), (false, None));
}

#[test]
fn unknown_directives_prevent_caching() {
    assert_eq!(should_cache(&headers(Some("public, private")), b"200"), (true, None));
    assert_eq!(should_cache(&headers(Some("no-cache")), b"200"), (false, None));
    assert_eq!(should_cache(&headers(Some("public, immutable")), b"200"), (false, None));
    assert_eq!(should_cache(&headers(Some("")), b"200"), (true, None));
}

#[test]
fn zero_max_age_is_never_a_hit() {
    let mut cache = ResponseCache::new();
    cache.consider_storing(&headers(Some("max-age=0")), b"200", b"http://x:80/".to_vec(), String::from("body"), 1000);
    assert_eq!(cache.check_cache(b"http://x:80/", 1001), None);
    assert_eq!(cache.check_cache(b"http://x:80/", 1000), None);
}

#[test]
fn no_cache_control_hits_for_ever() {
    let mut cache = ResponseCache::new();
    cache.consider_storing(&headers(None), b"200", b"http://x:80/".to_vec(), String::from("body"), 1000);
    assert_eq!(cache.check_cache(b"http://x:80/", 1000), Some(String::from("body")));
    assert_eq!(cache.check_cache(b"http://x:80/", u64::MAX), Some(String::from("body")));
    assert_eq!(cache.check_cache(b"http://x:80/other", 1000), None);
}

#[test]
fn no_store_never_creates_an_entry() {
    let mut cache = ResponseCache::new();
    cache.consider_storing(&headers(Some("no-store")), b"200", b"http://x:80/".to_vec(), String::from("body"), 1000);
    assert_eq!(cache.check_cache(b"http://x:80/", 1000), None);
}

#[test]
fn max_age_window_and_replacement() {
    let mut cache = ResponseCache::new();
    cache.store(b"k".to_vec(), String::from("old"), 100, Some(10));
    assert_eq!(cache.check_cache(b"k", 109), Some(String::from("old")));
    assert_eq!(cache.check_cache(b"k", 110), None);
    assert_eq!(cache.check_cache(b"k", 50), Some(String::from("old")));
    cache.store(b"k".to_vec(), String::from("new"), 200, None);
    assert_eq!(cache.check_cache(b"k", 5000), Some(String::from("new")));
}
