use axum::http::header::{ACCEPT, AUTHORIZATION, ETAG, IF_MODIFIED_SINCE, IF_NONE_MATCH, LAST_MODIFIED, VARY};
use axum::http::{HeaderMap, HeaderValue};
use relaycache::headers::{
    add_via, base_cache_key, did_client_validator_match, etag_list_contains, forward_headers, is_hop_by_hop,
    merge_etag_validators, merge_ims_validators, normalize_etag, parse_http_date, parse_range_header, vary_cache_key,
    vary_prevents_caching,
};
use relaycache::range::{read_range, RangeRequest};
use relaycache::store::CacheEntry;

fn hv(s: &str) -> HeaderValue {
    HeaderValue::from_str(s).unwrap()
}

fn entry(etag: Option<&str>, last_modified: Option<&str>) -> CacheEntry {
    CacheEntry {
        etag: etag.map(hv),
        last_modified: last_modified.map(hv),
        headers: HeaderMap::new(),
        blob_sha256: "ab".repeat(32),
        blob_size: 3,
    }
}

// --- Vary ---------------------------------------------------------------------

#[test]
fn vary_key_no_vary() {
    let resp = HeaderMap::new();
    assert_eq!(vary_cache_key("GET:/foo", &HeaderMap::new(), &resp), "GET:/foo");
}

#[test]
fn vary_key_accept() {
    let mut resp = HeaderMap::new();
    resp.insert(VARY, hv("Accept"));
    let mut req = HeaderMap::new();
    req.insert(ACCEPT, hv("application/json"));
    let key = vary_cache_key("GET:/foo", &req, &resp);
    assert!(key.contains("accept=application/json"), "key={key}");
}

#[test]
fn vary_key_ignores_authorization() {
    let mut resp = HeaderMap::new();
    resp.insert(VARY, hv("Authorization, Accept"));
    let mut req = HeaderMap::new();
    req.insert(AUTHORIZATION, hv("Bearer secret"));
    req.insert(ACCEPT, hv("application/json"));
    let key = vary_cache_key("GET:/foo", &req, &resp);
    assert!(!key.to_ascii_lowercase().contains("secret"), "credential leaked: {key}");
    assert!(key.contains("accept=application/json"), "key={key}");
}

#[test]
fn vary_prevents_caching_star() {
    let mut resp = HeaderMap::new();
    resp.insert(VARY, hv("*"));
    assert!(vary_prevents_caching(&resp));
}

#[test]
fn vary_prevents_caching_authorization() {
    let mut resp = HeaderMap::new();
    resp.insert(VARY, hv("Accept, Authorization"));
    assert!(vary_prevents_caching(&resp));
}

#[test]
fn vary_does_not_prevent_normal() {
    let mut resp = HeaderMap::new();
    resp.insert(VARY, hv("Accept"));
    assert!(!vary_prevents_caching(&resp));
}

#[test]
fn vary_key_exact_text_in_any_order() {
    let mut req = HeaderMap::new();
    req.insert(ACCEPT, hv("text/html, text/plain"));
    req.append("accept-encoding", hv("gzip"));
    req.append("accept-encoding", hv("br"));
    let mut a = HeaderMap::new();
    a.insert(VARY, hv("Accept-Encoding ,\tACCEPT,X-Missing"));
    let mut b = HeaderMap::new();
    b.insert(VARY, hv("x-missing, accept, accept-encoding"));
    let expected = "GET:/f[accept-encoding=gzip, br,accept=text/html, text/plain,x-missing=]";
    assert_eq!(vary_cache_key("GET:/f", &req, &a), expected);
    assert_eq!(vary_cache_key("GET:/f", &req, &b), expected);
}

#[test]
fn vary_lines_are_one_list() {
    let mut req = HeaderMap::new();
    req.insert(ACCEPT, hv("a"));
    req.insert("accept-language", hv("en"));
    let mut resp = HeaderMap::new();
    resp.append(VARY, hv("Accept"));
    resp.append(VARY, hv("Accept-Language"));
    assert_eq!(vary_cache_key("k", &req, &resp), "k[accept-language=en,accept=a]");
    assert!(!vary_prevents_caching(&resp));
    resp.append(VARY, hv("Origin, Authorization"));
    assert!(vary_prevents_caching(&resp));
    assert_eq!(vary_cache_key("k", &req, &resp), "k[accept-language=en,accept=a,origin=]");
    let mut odd = HeaderMap::new();
    odd.append(VARY, HeaderValue::from_bytes(b"\xff").unwrap());
    odd.append(VARY, hv("Authorization"));
    assert!(vary_prevents_caching(&odd));
}

#[test]
fn vary_key_stays_at_the_base() {
    let mut req = HeaderMap::new();
    req.insert(AUTHORIZATION, hv("Bearer x"));
    for vary in ["*", " * ", "Authorization", "AUTHORIZATION, authorization"] {
        let mut resp = HeaderMap::new();
        resp.insert(VARY, hv(vary));
        assert_eq!(vary_cache_key("GET:/f", &req, &resp), "GET:/f");
        assert!(vary_prevents_caching(&resp));
    }
}

#[test]
fn an_asterisk_on_any_line_prevents_caching() {
    let mut req = HeaderMap::new();
    req.insert(ACCEPT, hv("a"));
    for lines in [["*", "Accept"], ["Accept", " * "], ["*", "*"], ["*", ""]] {
        let mut resp = HeaderMap::new();
        for line in lines {
            resp.append(VARY, hv(line));
        }
        assert!(vary_prevents_caching(&resp), "{lines:?}");
        assert_eq!(vary_cache_key("k", &req, &resp), "k", "{lines:?}");
    }
    let mut odd = HeaderMap::new();
    odd.append(VARY, HeaderValue::from_bytes(b"\xff").unwrap());
    odd.append(VARY, hv("*"));
    assert!(vary_prevents_caching(&odd));
}

#[test]
fn vary_key_odd_values() {
    let mut resp = HeaderMap::new();
    resp.insert(VARY, hv(""));
    assert_eq!(vary_cache_key("k", &HeaderMap::new(), &resp), "k[=]");
    resp.insert(VARY, HeaderValue::from_bytes(b"acc\xe9pt").unwrap());
    assert_eq!(vary_cache_key("k", &HeaderMap::new(), &resp), "k[=]");
    assert!(!vary_prevents_caching(&resp));
    resp.insert(VARY, hv("a b"));
    assert_eq!(vary_cache_key("k", &HeaderMap::new(), &resp), "k[a b=]");
    let long = format!("{} ", "x".repeat(70));
    resp.insert(VARY, hv(&format!("{long}y")));
    assert_eq!(vary_cache_key("k", &HeaderMap::new(), &resp), format!("k[{long}y=]"));
    let mut req = HeaderMap::new();
    req.insert(ACCEPT, HeaderValue::from_bytes(b"\xff").unwrap());
    resp.insert(VARY, hv("accept"));
    assert_eq!(vary_cache_key("k", &req, &resp), "k[accept=]");
}

#[test]
fn variants_have_keys_of_their_own() {
    let mut resp = HeaderMap::new();
    resp.insert(VARY, hv("Accept"));
    let mut gzip = HeaderMap::new();
    gzip.insert(ACCEPT, hv("a,accept=b"));
    let mut other = HeaderMap::new();
    other.insert(ACCEPT, hv("a"));
    assert_ne!(vary_cache_key("k", &gzip, &resp), vary_cache_key("k", &other, &resp));
}

#[test]
fn base_keys() {
    assert_eq!(base_cache_key("GET", Some("/a?b=c")), "GET:/a?b=c");
    assert_eq!(base_cache_key("POST", None), "POST:/");
}

// --- ETag ---------------------------------------------------------------------

#[test]
fn etag_exact() {
    assert!(etag_list_contains(&hv(r#""abc""#), &hv(r#""abc""#)));
}

#[test]
fn etag_weak_equals_strong() {
    assert!(etag_list_contains(&hv(r#"W/"abc""#), &hv(r#""abc""#)));
}

#[test]
fn etag_list_second() {
    assert!(etag_list_contains(&hv(r#""a", "b", "c""#), &hv(r#""b""#)));
}

#[test]
fn etag_no_match() {
    assert!(!etag_list_contains(&hv(r#""a", "b""#), &hv(r#""c""#)));
}

#[test]
fn etags_without_their_marks() {
    assert_eq!(normalize_etag(r#"W/"foo""#), "foo");
    assert_eq!(normalize_etag(r#""foo""#), "foo");
    assert_eq!(normalize_etag("foo"), "foo");
    assert_eq!(normalize_etag(r#"W/""foo"#), "foo");
    assert_eq!(normalize_etag(r#""W/"foo""#), r#"W/"foo"#);
    assert_eq!(normalize_etag(r#""""""#), "");
    assert_eq!(normalize_etag("W/"), "");
    assert_eq!(normalize_etag(""), "");
    assert_eq!(normalize_etag("W/\"\u{e9}\u{1f600}\""), "\u{e9}\u{1f600}");
}

#[test]
fn etag_values_that_are_no_text() {
    let odd = HeaderValue::from_bytes(b"\"\xff\"").unwrap();
    assert!(etag_list_contains(&odd, &odd));
    assert!(etag_list_contains(&hv(r#""a",,"b""#), &odd));
    assert!(!etag_list_contains(&hv(r#""a""#), &odd));
}

// --- Dates --------------------------------------------------------------------

#[test]
fn date_epoch() {
    assert_eq!(parse_http_date(&hv("Thu, 01 Jan 1970 00:00:00 GMT")), Some(0));
}

#[test]
fn date_y2k() {
    assert_eq!(parse_http_date(&hv("Sat, 01 Jan 2000 00:00:00 GMT")), Some(946684800));
}

#[test]
fn date_ordering() {
    let a = parse_http_date(&hv("Mon, 01 Jan 2024 00:00:00 GMT")).unwrap();
    let b = parse_http_date(&hv("Tue, 02 Jan 2024 00:00:00 GMT")).unwrap();
    assert!(a < b);
}

#[test]
fn date_rfc850() {
    assert_eq!(parse_http_date(&hv("Monday, 02-Jan-06 15:04:05 GMT")), Some(1136214245));
}

#[test]
fn dates_in_the_form_of_asctime() {
    assert_eq!(parse_http_date(&hv("Sun Nov  6 08:49:37 1994")), Some(784111777));
    assert_eq!(parse_http_date(&hv("Sun, 06 Nov 1994 08:49:37 GMT")), Some(784111777));
    assert_eq!(parse_http_date(&hv("Sunday, 06-Nov-94 08:49:37 GMT")), Some(784111777));
    assert_eq!(parse_http_date(&hv("Thu Feb 29 00:00:00 2024")), Some(1709164800));
    assert_eq!(parse_http_date(&hv("Fri Mar  1 00:00:00 2024")), Some(1709164800 + 86400));
    assert_eq!(parse_http_date(&hv("Thu Jan  1 00:00:00 1970")), Some(0));
}

#[test]
fn dates_around_leap_days() {
    assert_eq!(parse_http_date(&hv("Thu, 29 Feb 2024 00:00:00 GMT")), Some(1709164800));
    assert_eq!(parse_http_date(&hv("Fri, 01 Mar 2024 00:00:00 GMT")), Some(1709251200));
    assert_eq!(parse_http_date(&hv("Wed, 01 Mar 2000 00:00:00 GMT")), Some(951868800));
    assert_eq!(parse_http_date(&hv("Mon, 01 Mar 2100 00:00:00 GMT")), Some(4107542400));
    assert_eq!(parse_http_date(&hv("Sun, 31 Dec 1969 23:59:59 GMT")), Some(-1));
    assert_eq!(parse_http_date(&hv("Friday, 31-Dec-99 23:59:59 GMT")), Some(946684799));
    assert_eq!(parse_http_date(&hv("Thursday, 01-Jan-70 00:00:00 GMT")), Some(0));
    assert_eq!(parse_http_date(&hv("Tuesday, 31-Dec-69 00:00:00 GMT")), Some(3155673600));
}

#[test]
fn every_month_has_its_number() {
    let months = [
        ("Jan", 1704067200),
        ("Feb", 1706745600),
        ("Mar", 1709251200),
        ("Apr", 1711929600),
        ("May", 1714521600),
        ("Jun", 1717200000),
        ("Jul", 1719792000),
        ("Aug", 1722470400),
        ("Sep", 1725148800),
        ("Oct", 1727740800),
        ("Nov", 1730419200),
        ("Dec", 1733011200),
    ];
    for (name, ts) in months {
        assert_eq!(parse_http_date(&hv(&format!("xxx, 1 {name} 2024 0:0:0"))), Some(ts));
    }
}

#[test]
fn texts_that_are_no_dates() {
    for text in [
        "",
        "Mon",
        "Sun Nov  6 08:49:37",
        "Sun Nov  6 08:49:37 1994 GMT",
        "Sun nov  6 08:49:37 1994",
        "Mon, 01 jan 2024 00:00:00 GMT",
        "Mon, 01 Jan 2024 00:00 GMT",
        "Mon, 01 Jan 2024",
        "Mon, x Jan 2024 00:00:00 GMT",
        "Monday, 02-Jan-06 15:04:05",
        "Monday, 02-Jan 15:04:05 GMT",
        "Mon, 01 Jan 9223372036854775807 00:00:00 GMT",
        "Mon, 01 Jan 9223372036854775808 00:00:00 GMT",
    ] {
        assert_eq!(parse_http_date(&hv(text)), None, "{text}");
    }
    assert_eq!(parse_http_date(&HeaderValue::from_bytes(b"\xff").unwrap()), None);
}

// --- Range --------------------------------------------------------------------

#[test]
fn range_normal() {
    assert_eq!(parse_range_header(&hv("bytes=0-499"), 1000), Some((0, 500)));
}

#[test]
fn range_open_end() {
    assert_eq!(parse_range_header(&hv("bytes=500-"), 1000), Some((500, 1000)));
}

#[test]
fn range_suffix() {
    assert_eq!(parse_range_header(&hv("bytes=-200"), 1000), Some((800, 1000)));
}

#[test]
fn range_clamp() {
    assert_eq!(parse_range_header(&hv("bytes=0-9999"), 1000), Some((0, 1000)));
}

#[test]
fn range_unsatisfiable() {
    assert_eq!(parse_range_header(&hv("bytes=2000-2999"), 1000), None);
}

#[test]
fn range_multi() {
    assert_eq!(parse_range_header(&hv("bytes=0-9,20-29"), 1000), None);
}

#[test]
fn ranges_by_their_outcome() {
    let total = 1000;
    assert_eq!(read_range(&hv("bytes=999-999"), total), RangeRequest::Part { start: 999, end: 1000 });
    assert_eq!(read_range(&hv("bytes=-5000"), total), RangeRequest::Part { start: 0, end: 1000 });
    assert_eq!(read_range(&hv("bytes=0-18446744073709551615"), total), RangeRequest::Part { start: 0, end: 1000 });
    assert_eq!(read_range(&hv("bytes=1000-"), total), RangeRequest::BeyondEnd);
    assert_eq!(read_range(&hv("bytes=1000-1000"), total), RangeRequest::BeyondEnd);
    assert_eq!(read_range(&hv("bytes=5-5"), total), RangeRequest::Part { start: 5, end: 6 });
    assert_eq!(read_range(&hv("bytes=-0"), total), RangeRequest::BeyondEnd);
    assert_eq!(read_range(&hv("bytes=0-"), 0), RangeRequest::BeyondEnd);
    assert_eq!(read_range(&hv("bytes=0-9,20-29"), total), RangeRequest::Several);
    assert_eq!(read_range(&hv("bytes=,"), total), RangeRequest::Several);
    for text in ["bytes=5-3", "bytes=2000-1000", "bytes=1000-999", "bytes=", "bytes=-", "bytes=a-b", "bytes=5", "items=0-5", "bytes=1-2-3", "bytes=0-18446744073709551616", "bytes=+0-9", "bytes=0-+9", "bytes=-+5", "bytes=+1-", "bytes= 0-9"] {
        assert_eq!(read_range(&hv(text), total), RangeRequest::Malformed, "{text}");
        assert_eq!(parse_range_header(&hv(text), total), None);
    }
    assert_eq!(read_range(&HeaderValue::from_bytes(b"bytes=0-\xff").unwrap(), total), RangeRequest::Malformed);
}

// --- Via ----------------------------------------------------------------------

#[test]
fn via_added() {
    let mut headers = HeaderMap::new();
    add_via(&mut headers);
    assert_eq!(headers.get("via").unwrap().to_str().unwrap(), "1.1 relaycache");
}

#[test]
fn via_appended() {
    let mut headers = HeaderMap::new();
    headers.insert("via", hv("1.1 upstream-proxy"));
    add_via(&mut headers);
    let via = headers.get("via").unwrap().to_str().unwrap();
    assert!(via.contains("upstream-proxy"), "via={via}");
    assert!(via.contains("relaycache"), "via={via}");
}

#[test]
fn via_becomes_a_single_line() {
    let mut headers = HeaderMap::new();
    headers.append("via", hv("1.0 a"));
    headers.append("via", hv("1.0 b"));
    add_via(&mut headers);
    let all: Vec<&str> = headers.get_all("via").iter().map(|v| v.to_str().unwrap()).collect();
    assert_eq!(all, ["1.0 a, 1.0 b, 1.1 relaycache"]);
    headers.insert("via", HeaderValue::from_bytes(b"\xff").unwrap());
    headers.append("via", hv("1.1 c, 1.0 d"));
    add_via(&mut headers);
    assert_eq!(headers.get_all("via").iter().collect::<Vec<_>>(), ["1.1 c, 1.0 d, 1.1 relaycache"]);
    headers.insert("via", HeaderValue::from_bytes(b"\xff").unwrap());
    add_via(&mut headers);
    assert_eq!(headers.get("via").unwrap(), "1.1 relaycache");
    headers.insert("via", hv(""));
    add_via(&mut headers);
    assert_eq!(headers.get("via").unwrap(), ", 1.1 relaycache");
}

// --- did_client_validator_match -------------------------------------------------

#[test]
fn client_etag_matches() {
    let mut c = HeaderMap::new();
    c.insert(IF_NONE_MATCH, hv(r#""v1""#));
    let mut u = HeaderMap::new();
    u.insert(ETAG, hv(r#""v1""#));
    assert!(did_client_validator_match(&c, &u));
}

#[test]
fn proxy_etag_only() {
    let mut c = HeaderMap::new();
    c.insert(IF_NONE_MATCH, hv(r#""v1""#));
    let mut u = HeaderMap::new();
    u.insert(ETAG, hv(r#""v2""#));
    assert!(!did_client_validator_match(&c, &u));
}

#[test]
fn date_fallback_client_current() {
    let mut c = HeaderMap::new();
    c.insert(IF_MODIFIED_SINCE, hv("Tue, 02 Jan 2024 00:00:00 GMT"));
    let mut u = HeaderMap::new();
    u.insert(LAST_MODIFIED, hv("Mon, 01 Jan 2024 00:00:00 GMT"));
    assert!(did_client_validator_match(&c, &u));
}

#[test]
fn validators_that_do_not_confirm_the_client() {
    let old = hv("Mon, 01 Jan 2024 00:00:00 GMT");
    let new = hv("Tue, 02 Jan 2024 00:00:00 GMT");
    let mut c = HeaderMap::new();
    let mut u = HeaderMap::new();
    assert!(!did_client_validator_match(&c, &u));
    c.insert(IF_MODIFIED_SINCE, old.clone());
    assert!(!did_client_validator_match(&c, &u));
    u.insert(LAST_MODIFIED, new);
    assert!(!did_client_validator_match(&c, &u));
    u.insert(LAST_MODIFIED, old);
    assert!(did_client_validator_match(&c, &u));
    u.insert(ETAG, hv(r#""v""#));
    assert!(!did_client_validator_match(&c, &u));
}

// --- Forwarding -----------------------------------------------------------------

#[test]
fn connection_headers_are_not_forwarded() {
    let mut src = HeaderMap::new();
    for name in [
        "connection",
        "keep-alive",
        "proxy-authenticate",
        "proxy-authorization",
        "te",
        "trailers",
        "transfer-encoding",
        "upgrade",
    ] {
        assert!(is_hop_by_hop(name));
        assert!(is_hop_by_hop(&name.to_ascii_uppercase()));
        src.insert(axum::http::HeaderName::from_static(name), hv("x"));
    }
    src.insert(AUTHORIZATION, hv("Bearer t"));
    src.append("cookie", hv("a=1"));
    src.append("cookie", hv("b=2"));
    let dst = forward_headers(&src);
    assert_eq!(dst.keys_len(), 2);
    assert_eq!(dst.get(AUTHORIZATION).unwrap(), "Bearer t");
    let cookies: Vec<&HeaderValue> = dst.get_all("cookie").iter().collect();
    assert_eq!(cookies, ["a=1", "b=2"]);
    assert!(!is_hop_by_hop("host"));
    assert!(!is_hop_by_hop(""));
}

#[test]
fn etags_are_merged() {
    let mut incoming = HeaderMap::new();
    let mut fwd = HeaderMap::new();
    merge_etag_validators(&incoming, &entry(None, None), &mut fwd);
    assert!(fwd.is_empty());
    merge_etag_validators(&incoming, &entry(Some(r#""b""#), None), &mut fwd);
    assert_eq!(fwd.get(IF_NONE_MATCH).unwrap(), r#""b""#);
    incoming.insert(IF_NONE_MATCH, hv(r#""a""#));
    let mut fwd = incoming.clone();
    merge_etag_validators(&incoming, &entry(None, None), &mut fwd);
    assert_eq!(fwd, incoming);
    merge_etag_validators(&incoming, &entry(Some(r#""a""#), None), &mut fwd);
    assert_eq!(fwd, incoming);
    merge_etag_validators(&incoming, &entry(Some(r#""b""#), None), &mut fwd);
    let merged = fwd.get(IF_NONE_MATCH).unwrap();
    assert_eq!(merged, r#""a", "b""#);
    assert!(etag_list_contains(merged, &hv(r#""a""#)));
    assert!(etag_list_contains(merged, &hv(r#""b""#)));
}

#[test]
fn etag_lines_are_one_list() {
    let mut incoming = HeaderMap::new();
    incoming.append(IF_NONE_MATCH, hv(r#""a""#));
    incoming.append(IF_NONE_MATCH, hv(r#""b", "c""#));
    let mut fwd = incoming.clone();
    merge_etag_validators(&incoming, &entry(Some(r#""p""#), None), &mut fwd);
    assert_eq!(fwd.get_all(IF_NONE_MATCH).iter().collect::<Vec<_>>(), [r#""a", "b", "c", "p""#]);
    let mut fwd = incoming.clone();
    merge_etag_validators(&incoming, &entry(None, None), &mut fwd);
    assert_eq!(fwd, incoming);
    for tag in [r#""a""#, r#""b""#, r#"W/"c""#] {
        let mut up = HeaderMap::new();
        up.insert(ETAG, hv(tag));
        assert!(did_client_validator_match(&incoming, &up), "{tag}");
    }
    let mut up = HeaderMap::new();
    up.insert(ETAG, hv(r#""p""#));
    assert!(!did_client_validator_match(&incoming, &up));
    let mut odd = HeaderMap::new();
    odd.insert(IF_NONE_MATCH, HeaderValue::from_bytes(b"\xff").unwrap());
    let mut fwd = odd.clone();
    merge_etag_validators(&odd, &entry(Some(r#""p""#), None), &mut fwd);
    assert_eq!(fwd.get(IF_NONE_MATCH).unwrap(), r#", "p""#);
}

#[test]
fn later_date_is_forwarded() {
    let old = "Mon, 01 Jan 2024 00:00:00 GMT";
    let new = "Tue, 02 Jan 2024 00:00:00 GMT";
    let cases = [
        (None, None, None),
        (Some(old), None, Some(old)),
        (None, Some(old), Some(old)),
        (Some(old), Some(new), Some(new)),
        (Some(new), Some(old), Some(new)),
        (Some("yesterday"), Some(old), Some(old)),
        (Some(new), Some("yesterday"), Some("yesterday")),
    ];
    for (client, cached, expected) in cases {
        let mut incoming = HeaderMap::new();
        if let Some(c) = client {
            incoming.insert(IF_MODIFIED_SINCE, hv(c));
        }
        let mut fwd = incoming.clone();
        merge_ims_validators(&incoming, &entry(None, cached), &mut fwd);
        assert_eq!(fwd.get(IF_MODIFIED_SINCE).map(|v| v.to_str().unwrap()), expected);
    }
}
