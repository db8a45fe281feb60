use netlabs::proxy::{
    absolute_uri, answer_status, cached_answer_status, revalidation_headers, ignore, origin_target, resource_blocked, revalidated, should_cache,
    tag_file_name, Cache, CachedResource, Config, Revalidated, Route,
};

fn config() -> Config {
    Config::new(vec!["example.com".to_string(), "news.org/politics".to_string()])
}

#[test]
fn blocked_hosts_and_paths() {
    let c = config();
    assert!(c.blacklist_contains("example.com"));
    assert!(!c.blacklist_contains("example"));
    assert!(c.blocked(Some("example.com"), Some("/anything")));
    assert!(c.blocked(Some("news.org"), Some("/politics")));
    assert!(!c.blocked(Some("news.org"), Some("/sport")));
    assert!(!c.blocked(Some("news.org"), None));
    assert!(!c.blocked(None, Some("/politics")));
    assert!(c.host_blocked("example.com", None));
}

#[test]
fn ignored_hosts() {
    assert!(ignore(Some("favicon.ico")));
    assert!(ignore(Some("static")));
    assert!(!ignore(Some("example.com")));
    assert!(!ignore(None));
}

#[test]
fn request_rewriting() {
    assert_eq!(absolute_uri("/example.com/a?b=1"), "https://example.com/a?b=1");
    assert_eq!(origin_target(Some("/a?b=1")), "/a?b=1");
    assert_eq!(origin_target(None), "/");
    assert_eq!(resource_blocked(), (417, "Resource is blocked"));
}

#[test]
fn caching_decisions() {
    assert_eq!(revalidated(304), Revalidated::Fresh);
    assert_eq!(revalidated(200), Revalidated::Stale);
    assert!(should_cache(true, Some("\"x\""), Some("d")));
    assert!(!should_cache(false, Some("\"x\""), Some("d")));
    assert!(!should_cache(true, None, Some("d")));
    assert!(!should_cache(true, Some("\"x\""), None));
    assert_eq!(tag_file_name("\"abc\""), "abc");
    assert_eq!(tag_file_name("ab"), "");
}

fn tag<'a>(cache: &'a Cache, uri: &str) -> Option<(&'a str, &'a str)> {
    cache.tag(uri).map(|c| (c.etag.as_str(), c.time.as_str()))
}

#[test]
fn cache_entries() {
    let mut cache = Cache::new();
    assert_eq!(tag(&cache, "https://a/"), None);
    let name = cache.create_entry("https://a/", "\"t1\"", "Mon", vec![("Content-Type".to_string(), "text/html".to_string())]);
    assert_eq!(name, "t1");
    assert_eq!(tag(&cache, "https://a/"), Some(("\"t1\"", "Mon")));
    let name = cache.create_entry("https://a/", "\"t2\"", "Tue", vec![]);
    assert_eq!(name, "t2");
    assert_eq!(tag(&cache, "https://a/"), Some(("\"t2\"", "Tue")));
    cache.create_entry("https://b/", "\"t3\"", "Wed", vec![]);
    cache.remove_entry("https://a/");
    assert_eq!(tag(&cache, "https://a/"), None);
    assert_eq!(tag(&cache, "https://b/"), Some(("\"t3\"", "Wed")));
    cache.remove_entry("https://zzz/");
    assert_eq!(tag(&cache, "https://b/"), Some(("\"t3\"", "Wed")));
}

#[test]
fn cached_headers_kept() {
    let mut cache = Cache::new();
    cache.create_entry("u", "\"e\"", "t", vec![("A".to_string(), "1".to_string()), ("B".to_string(), "2".to_string())]);
    let r = cache.tag("u").unwrap();
    assert_eq!(r.headers, vec![("A".to_string(), "1".to_string()), ("B".to_string(), "2".to_string())]);
}

#[test]
fn routing_order() {
    let c = Config::new(vec!["favicon.ico".to_string(), "example.com".to_string(), "news.org/politics".to_string()]);
    assert_eq!(c.route(Some("favicon.ico"), None), Route::Ignore);
    assert_eq!(c.route(Some("static"), Some("/x")), Route::Ignore);
    assert_eq!(c.route(Some("example.com"), Some("/a")), Route::Blocked);
    assert_eq!(c.route(Some("news.org"), Some("/politics")), Route::Blocked);
    assert_eq!(c.route(Some("news.org"), Some("/sport")), Route::Forward);
    assert_eq!(c.route(None, Some("/a")), Route::Forward);
    assert_eq!(answer_status(Route::Ignore, None), 200);
    assert_eq!(answer_status(Route::Blocked, Some(200)), 417);
    assert_eq!(answer_status(Route::Forward, Some(404)), 404);
    assert_eq!(answer_status(Route::Forward, None), 400);
}

#[test]
fn revalidation_keeps_or_drops() {
    let mut cache = Cache::new();
    cache.create_entry("https://a/", "\"t1\"", "Mon", vec![]);
    assert_eq!(cache.after_revalidation("https://a/", 304), Revalidated::Fresh);
    assert_eq!(tag(&cache, "https://a/"), Some(("\"t1\"", "Mon")));
    assert_eq!(cache.after_revalidation("https://a/", 200), Revalidated::Stale);
    assert_eq!(tag(&cache, "https://a/"), None);
}

#[test]
fn revalidation_request_and_cached_status() {
    let c = CachedResource::new("\"abc\"", "Mon, 01 Jan 2024 00:00:00 GMT", vec![]);
    assert_eq!(
        revalidation_headers(&c),
        vec![
            ("if-modified-since".to_string(), "Mon, 01 Jan 2024 00:00:00 GMT".to_string()),
            ("if-none-match".to_string(), "\"abc\"".to_string()),
        ]
    );
    assert_eq!(cached_answer_status(true, 404), 200);
    assert_eq!(cached_answer_status(false, 404), 404);
}
