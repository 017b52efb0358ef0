use axum::http::{HeaderMap, HeaderName, HeaderValue};
use relaycache::fields::takes_more;
use relaycache::keys::base_cache_key;
use relaycache::proxy::{
    download_reply, forwarded_headers, is_cacheable_method, leaves_room, on_response, refine_key, store_plan,
    upstream_url, Lookup, Next, Reply, ReplyBody, StorePlan,
};
use relaycache::store::{index_entry, CacheEntry};

fn map(pairs: &[(&'static str, &str)]) -> HeaderMap {
    let mut m = HeaderMap::new();
    for (n, v) in pairs {
        m.append(HeaderName::from_static(n), HeaderValue::from_str(v).unwrap());
    }
    m
}

fn text<'a>(m: &'a HeaderMap, name: &str) -> Option<&'a str> {
    m.get(name).map(|v| v.to_str().unwrap())
}

fn cached(resp: &HeaderMap, size: u64) -> CacheEntry {
    index_entry("k", &"ab".repeat(32), size, resp, 0).0
}

fn answer(next: Next) -> Reply {
    match next {
        Next::Answer(r) => r,
        Next::Download => panic!("an answer"),
    }
}

fn stored() -> HeaderMap {
    map(&[
        ("etag", "\"v1\""),
        ("content-type", "text/plain"),
        ("x-many", "1"),
        ("x-many", "2"),
        ("content-length", "1000"),
        ("via", "1.1 origin"),
    ])
}

#[test]
fn methods_and_addresses() {
    assert!(is_cacheable_method("GET"));
    assert!(!is_cacheable_method("get"));
    assert!(!is_cacheable_method("HEAD"));
    assert_eq!(upstream_url("http://o", Some("/a?b")), "http://o/a?b");
    assert_eq!(upstream_url("http://o", None), "http://o/");
}

#[test]
fn keys_are_refined_by_the_entry_found() {
    let client = map(&[("accept", "x")]);
    assert!(matches!(refine_key("b", &client, None), Lookup::Done { key } if key == "b"));
    assert!(matches!(refine_key("b", &client, Some(&cached(&map(&[]), 1))), Lookup::Done { key } if key == "b"));
    let varied = cached(&map(&[("vary", "Accept")]), 1);
    assert!(matches!(refine_key("b", &client, Some(&varied)), Lookup::Again { key } if key == "b[accept=x]"));
}

#[test]
fn stored_variants_are_found_again() {
    let base = base_cache_key("GET", Some("/m"));
    let client = map(&[("accept", "x"), ("authorization", "Bearer one")]);
    let up = map(&[("vary", "Accept")]);
    let StorePlan::Store { key, also } = store_plan(&base, &base, &client, &up, 10, 10) else {
        panic!("stored");
    };
    assert_eq!(key, "GET:/m[accept=x]");
    assert_eq!(also.as_deref(), Some("GET:/m"));
    let entry = cached(&up, 10);
    let again = map(&[("accept", "x"), ("authorization", "Bearer two")]);
    assert!(matches!(refine_key(&base, &again, Some(&entry)), Lookup::Again { key: k } if k == key));
    let other = map(&[("accept", "y")]);
    assert!(matches!(refine_key(&base, &other, Some(&entry)), Lookup::Again { key } if key == "GET:/m[accept=y]"));
    let StorePlan::Store { key, also } = store_plan(&base, &base, &client, &map(&[]), 10, 10) else {
        panic!("stored");
    };
    assert_eq!(key, "GET:/m");
    assert!(also.is_none());
}

#[test]
fn later_variants_leave_the_base_key_alone() {
    let base = "GET:/f";
    let up = map(&[("vary", "Accept")]);
    let found = cached(&up, 10);
    let b = map(&[("accept", "b")]);
    let Lookup::Again { key: cache_key } = refine_key(base, &b, Some(&found)) else {
        panic!("led to its own key");
    };
    let StorePlan::Store { key, also } = store_plan(base, &cache_key, &b, &up, 10, 10) else {
        panic!("stored");
    };
    assert_eq!(key, "GET:/f[accept=b]");
    assert!(also.is_none());
    // What varied by another header is still found where it was looked for.
    let language = map(&[("vary", "Accept-Language")]);
    let StorePlan::Store { key, also } = store_plan(base, &cache_key, &b, &language, 10, 10) else {
        panic!("stored");
    };
    assert_eq!(key, "GET:/f[accept-language=]");
    assert_eq!(also.as_deref(), Some("GET:/f[accept=b]"));
    // What turned out to have variants is found by the next request.
    let StorePlan::Store { key, also } = store_plan(base, base, &b, &up, 10, 10) else {
        panic!("stored");
    };
    assert_eq!(key, "GET:/f[accept=b]");
    assert_eq!(also.as_deref(), Some(base));
}

#[test]
fn bodies_that_are_not_stored() {
    let client = map(&[]);
    for vary in ["*", "Authorization", "Accept, AUTHORIZATION"] {
        assert!(matches!(store_plan("b", "b", &client, &map(&[("vary", vary)]), 1, 10), StorePlan::VaryPrevents));
    }
    let lines = map(&[("vary", "Accept"), ("vary", "Authorization")]);
    assert!(matches!(store_plan("b", "b", &client, &lines, 1, 10), StorePlan::VaryPrevents));
    for lines in [["*", "Accept"], ["Accept", "*"]] {
        let lines = map(&[("vary", lines[0]), ("vary", lines[1])]);
        assert!(matches!(store_plan("b", "b", &client, &lines, 1, 2), StorePlan::VaryPrevents));
    }
    assert!(matches!(store_plan("b", "b", &client, &map(&[]), 11, 10), StorePlan::TooLarge));
}

#[test]
fn request_without_cache() {
    let client = map(&[
        ("host", "h"),
        ("authorization", "Bearer t"),
        ("cookie", "a=1"),
        ("connection", "close"),
        ("via", "1.0 edge"),
        ("if-none-match", "\"c\""),
    ]);
    let fwd = forwarded_headers("GET", &client, None);
    assert_eq!(text(&fwd, "authorization"), Some("Bearer t"));
    assert_eq!(text(&fwd, "cookie"), Some("a=1"));
    assert_eq!(text(&fwd, "via"), Some("1.0 edge, 1.1 relaycache"));
    assert_eq!(text(&fwd, "if-none-match"), Some("\"c\""));
    assert!(fwd.get("connection").is_none());
    assert_eq!(fwd.keys_len(), 5);
}

#[test]
fn request_with_range() {
    let client = map(&[("range", "bytes=0-9"), ("if-range", "\"c\"")]);
    let entry = cached(&stored(), 1000);
    for cached in [None, Some(&entry)] {
        let fwd = forwarded_headers("GET", &client, cached);
        assert!(fwd.get("range").is_none());
        assert!(fwd.get("if-range").is_none());
        assert_eq!(text(&fwd, "if-none-match"), cached.map(|_| "\"v1\""));
    }
    let fwd = forwarded_headers("HEAD", &client, None);
    assert_eq!(text(&fwd, "range"), Some("bytes=0-9"));
    assert_eq!(text(&fwd, "if-range"), Some("\"c\""));
    let alone = map(&[("if-range", "\"c\"")]);
    assert_eq!(text(&forwarded_headers("GET", &alone, None), "if-range"), Some("\"c\""));
}

#[test]
fn request_with_validators() {
    let client = map(&[("if-none-match", "\"c\""), ("if-modified-since", "Tue, 02 Jan 2024 00:00:00 GMT")]);
    let entry = cached(&map(&[("etag", "\"v1\""), ("last-modified", "Mon, 01 Jan 2024 00:00:00 GMT")]), 1);
    let fwd = forwarded_headers("GET", &client, Some(&entry));
    assert_eq!(text(&fwd, "if-none-match"), Some("\"c\", \"v1\""));
    assert_eq!(text(&fwd, "if-modified-since"), Some("Tue, 02 Jan 2024 00:00:00 GMT"));
}

#[test]
fn whole_body_from_cache() {
    let entry = cached(&stored(), 1000);
    let up = map(&[("etag", "\"v1\""), ("x-many", "3"), ("x-many", "4"), ("connection", "close")]);
    let r = answer(on_response("GET", 304, &map(&[]), &up, Some(&entry), "GET:/a"));
    assert_eq!(r.status, 200);
    assert_eq!(r.body, ReplyBody::Whole);
    assert_eq!(text(&r.headers, "content-type"), Some("text/plain"));
    assert_eq!(r.headers.get_all("x-many").iter().collect::<Vec<_>>(), ["3", "4"]);
    assert_eq!(text(&r.headers, "content-length"), Some("1000"));
    assert_eq!(text(&r.headers, "x-cache"), Some("HIT"));
    assert_eq!(text(&r.headers, "x-cache-key"), Some("GET:/a"));
    assert_eq!(text(&r.headers, "via"), Some("1.1 origin, 1.1 relaycache"));
    assert!(r.headers.get("connection").is_none());
}

#[test]
fn stored_values_are_all_replayed() {
    let entry = cached(&stored(), 7);
    let r = answer(on_response("GET", 304, &map(&[]), &map(&[]), Some(&entry), "k"));
    assert_eq!(r.headers.get_all("x-many").iter().collect::<Vec<_>>(), ["1", "2"]);
    assert_eq!(text(&r.headers, "content-length"), Some("7"));
}

#[test]
fn part_of_a_body_from_cache() {
    let entry = cached(&stored(), 1000);
    let client = map(&[("range", "bytes=100-199")]);
    let up = map(&[("etag", "\"v2\""), ("x-many", "3"), ("link", "a"), ("link", "b")]);
    let r = answer(on_response("GET", 304, &client, &up, Some(&entry), "k"));
    assert_eq!(r.headers.get_all("x-many").iter().collect::<Vec<_>>(), ["3"]);
    assert_eq!(r.headers.get_all("link").iter().collect::<Vec<_>>(), ["a", "b"]);
    assert_eq!(r.status, 206);
    assert_eq!(r.body, ReplyBody::Part { start: 100, end: 200 });
    assert_eq!(text(&r.headers, "content-range"), Some("bytes 100-199/1000"));
    assert_eq!(text(&r.headers, "content-length"), Some("100"));
    assert_eq!(text(&r.headers, "accept-ranges"), Some("bytes"));
    assert_eq!(text(&r.headers, "etag"), Some("\"v2\""));
    assert_eq!(text(&r.headers, "x-cache"), Some("HIT"));
    assert_eq!(text(&r.headers, "x-cache-key"), Some("k"));
}

#[test]
fn ranges_that_a_cached_body_does_not_have() {
    let entry = cached(&stored(), 1000);
    for range in ["bytes=1000-", "bytes=x"] {
        let client = map(&[("range", range)]);
        let r = answer(on_response("GET", 304, &client, &map(&[]), Some(&entry), "k"));
        assert_eq!(r.status, 416);
        assert_eq!(r.body, ReplyBody::Empty);
        assert_eq!(text(&r.headers, "content-range"), Some("bytes */1000"));
        assert_eq!(text(&r.headers, "x-cache"), Some("HIT"));
        assert_eq!(text(&r.headers, "via"), Some("1.1 relaycache"));
        assert_eq!(r.headers.keys_len(), 4);
    }
    let several = map(&[("range", "bytes=0-9,20-29")]);
    let r = answer(on_response("GET", 304, &several, &map(&[]), Some(&entry), "k"));
    assert_eq!(r.status, 200);
    assert_eq!(r.body, ReplyBody::Whole);
}

#[test]
fn client_copy_is_current() {
    let entry = cached(&stored(), 1000);
    let client = map(&[("if-none-match", "\"c\", \"v1\""), ("range", "bytes=0-1")]);
    let up = map(&[("etag", "W/\"v1\""), ("te", "x")]);
    for cached in [Some(&entry), None] {
        let r = answer(on_response("GET", 304, &client, &up, cached, "k"));
        assert_eq!(r.status, 304);
        assert_eq!(r.body, ReplyBody::Empty);
        assert_eq!(text(&r.headers, "etag"), Some("W/\"v1\""));
        assert_eq!(text(&r.headers, "x-cache"), Some("MISS"));
        assert!(r.headers.get("te").is_none());
    }
    let other = map(&[("if-none-match", "\"c\"")]);
    assert_eq!(answer(on_response("GET", 304, &other, &up, Some(&entry), "k")).status, 200);
    assert_eq!(answer(on_response("GET", 304, &other, &up, None, "k")).status, 304);
}

#[test]
fn refusals_are_passed_on() {
    let entry = cached(&stored(), 1000);
    let up = map(&[("www-authenticate", "Bearer"), ("set-cookie", "a"), ("set-cookie", "b"), ("upgrade", "h2c")]);
    for status in [401u16, 403, 404, 500, 206, 301] {
        let r = answer(on_response("GET", status, &map(&[("range", "bytes=0-1")]), &up, Some(&entry), "k"));
        assert_eq!(r.status, status);
        assert_eq!(r.body, ReplyBody::Upstream);
        assert_eq!(text(&r.headers, "www-authenticate"), Some("Bearer"));
        assert_eq!(r.headers.get_all("set-cookie").iter().count(), 2);
        assert!(r.headers.get("upgrade").is_none());
        assert_eq!(text(&r.headers, "x-cache"), Some("MISS"));
    }
    let r = answer(on_response("POST", 200, &map(&[]), &up, None, "k"));
    assert_eq!(r.status, 200);
    assert_eq!(r.body, ReplyBody::Upstream);
    assert!(matches!(on_response("GET", 200, &map(&[]), &up, Some(&entry), "k"), Next::Download));
}

#[test]
fn downloaded_bodies() {
    let up = map(&[("content-type", "a/b"), ("content-length", "5"), ("transfer-encoding", "chunked")]);
    let r = download_reply(&map(&[]), &up, 1000, "k");
    assert_eq!(r.status, 200);
    assert_eq!(r.body, ReplyBody::Whole);
    assert_eq!(text(&r.headers, "content-length"), Some("1000"));
    assert_eq!(text(&r.headers, "x-cache"), Some("MISS"));
    assert_eq!(text(&r.headers, "via"), Some("1.1 relaycache"));
    assert!(r.headers.get("transfer-encoding").is_none());
    let r = download_reply(&map(&[("range", "bytes=-10")]), &up, 1000, "k");
    assert_eq!(r.status, 206);
    assert_eq!(r.body, ReplyBody::Part { start: 990, end: 1000 });
    assert_eq!(text(&r.headers, "content-range"), Some("bytes 990-999/1000"));
    assert_eq!(text(&r.headers, "content-length"), Some("10"));
    assert_eq!(text(&r.headers, "content-type"), Some("a/b"));
    assert_eq!(text(&r.headers, "x-cache"), Some("MISS"));
    assert_eq!(text(&r.headers, "x-cache-key"), Some("k"));
    let r = download_reply(&map(&[("range", "bytes=5000-")]), &up, 1000, "k");
    assert_eq!(r.status, 416);
    assert_eq!(text(&r.headers, "content-range"), Some("bytes */1000"));
    assert_eq!(text(&r.headers, "x-cache"), Some("MISS"));
    for range in ["bytes=0-1,3-4", "bytes=zero-one", "bytes=2000-1000"] {
        let r = download_reply(&map(&[("range", range)]), &up, 1000, "k");
        assert_eq!(r.status, 200);
        assert_eq!(r.body, ReplyBody::Whole);
    }
}

#[test]
fn keys_that_are_no_header_value() {
    let r = download_reply(&map(&[]), &map(&[]), 1, "bad\nkey");
    assert_eq!(text(&r.headers, "x-cache-key"), Some("?"));
    let r = download_reply(&map(&[]), &map(&[]), 1, "GET:/\u{e9}");
    assert_eq!(r.headers.get("x-cache-key").unwrap().as_bytes(), "GET:/\u{e9}".as_bytes());
}

#[test]
fn room_for_headers() {
    let mut big = HeaderMap::new();
    for i in 0..6545 {
        big.insert(HeaderName::from_bytes(format!("n{i}").as_bytes()).unwrap(), HeaderValue::from_static("v"));
    }
    assert!(takes_more(&big));
    assert!(leaves_room(&big, None));
    assert!(leaves_room(&big, Some(&cached(&map(&[]), 1))));
    assert!(!leaves_room(&big, Some(&cached(&map(&[("a", "b")]), 1))));
    assert!(leaves_room(&HeaderMap::new(), Some(&cached(&big, 1))));
    let fwd = forwarded_headers("GET", &big, None);
    assert_eq!(fwd.keys_len(), 6546);
}
