use relaycache::config::{upstream_fs_name, Config, ConfigError, Environment};
use relaycache::paths::join_paths;
use relaycache::size::{parse_size, read_size, SizeError, SizeReading, MAX_EXACT};
use relaycache::spans::{can_read_span, read_span, Span};

fn scale(number: String, unit: u64) -> u64 {
    (number.parse::<f64>().unwrap() * unit as f64) as u64
}

fn config() -> Config {
    Config {
        upstream: "https://registry.example.com".to_owned(),
        bind: "0.0.0.0:8080".to_owned(),
        unix_socket: None,
        cache_dir: None,
        cache_max_entries: 100_000,
        max_cacheable_size: "512MiB".to_owned(),
        entry_ttl: "24h".to_owned(),
        eviction_interval: "1h".to_owned(),
    }
}

fn env(xdg: Option<&str>, home: Option<&str>) -> Environment {
    Environment { xdg_cache_home: xdg.map(|s| s.to_owned()), home: home.map(|s| s.to_owned()) }
}

#[test]
fn parse_size_mib() {
    assert_eq!(parse_size("512MiB", scale).unwrap(), 512 * 1_048_576);
}

#[test]
fn parse_size_gb() {
    assert_eq!(parse_size("1GB", scale).unwrap(), 1_000_000_000);
}

#[test]
fn parse_size_bare() {
    assert_eq!(parse_size("4096", scale).unwrap(), 4096);
}

#[test]
fn parse_size_unknown_unit() {
    assert!(parse_size("100XX", scale).is_err());
}

#[test]
fn upstream_fs_name_simple() {
    assert_eq!(upstream_fs_name("https://registry.example.com"), "registry.example.com");
}

#[test]
fn upstream_fs_name_with_port() {
    assert_eq!(upstream_fs_name("https://registry.example.com:5000"), "registry.example.com_5000");
}

#[test]
fn upstream_fs_name_with_path() {
    assert_eq!(upstream_fs_name("https://registry.example.com/v2"), "registry.example.com_v2");
}

#[test]
fn upstream_fs_name_repeated_scheme_and_ends() {
    assert_eq!(upstream_fs_name("https://https://http://a.b/"), "a.b");
    assert_eq!(upstream_fs_name("http://_x_/"), "x");
    assert_eq!(upstream_fs_name("https://user:pw@host/a b"), "user_pw_host_a_b");
    assert_eq!(upstream_fs_name("http://https://a"), "https___a");
    assert_eq!(upstream_fs_name("https://\u{e9}t\u{e9}.fr"), "t_.fr");
    assert_eq!(upstream_fs_name(""), "");
}

#[test]
fn sizes_of_every_unit() {
    let cases: [(&str, u64); 9] = [
        ("3B", 3),
        ("3KB", 3_000),
        ("3MB", 3_000_000),
        ("3GB", 3_000_000_000),
        ("3TB", 3_000_000_000_000),
        ("3KiB", 3_072),
        ("3MiB", 3_145_728),
        ("3GiB", 3_221_225_472),
        ("3TiB", 3_298_534_883_328),
    ];
    for (text, bytes) in cases {
        assert_eq!(parse_size(text, scale).unwrap(), bytes, "{text}");
        assert_eq!(parse_size(&text.to_lowercase(), scale).unwrap(), bytes, "{text}");
    }
}

#[test]
fn sizes_with_white_space_and_signs() {
    assert_eq!(parse_size("  4096 \n", scale).unwrap(), 4096);
    assert_eq!(parse_size("\u{3000}2 kb\t", scale).unwrap(), 2000);
    assert_eq!(parse_size("+2KB", scale).unwrap(), 2000);
    assert_eq!(parse_size("+7", scale).unwrap(), 7);
    assert_eq!(parse_size("-2KB", scale).unwrap(), 0);
    assert_eq!(parse_size("-2.5KB", scale).unwrap(), 0);
}

#[test]
fn sizes_that_take_floating_point() {
    assert_eq!(parse_size("1.5GiB", scale).unwrap(), 1_610_612_736);
    assert_eq!(parse_size(".5KB", scale).unwrap(), 500);
    assert_eq!(parse_size("2.KB", scale).unwrap(), 2000);
    assert_eq!(parse_size("99999999999TB", scale).unwrap(), u64::MAX);
    assert!(matches!(
        read_size("1.5GiB"),
        SizeReading::Scaled { ref number, unit: 1_073_741_824 } if number.as_str() == "1.5"
    ));
    assert!(matches!(read_size("9007199254740992B"), SizeReading::Bytes(MAX_EXACT)));
    assert!(matches!(read_size("9007199254740993B"), SizeReading::Scaled { .. }));
}

#[test]
fn size_errors_and_their_messages() {
    let no_unit = parse_size(" 1.5 ", scale).unwrap_err();
    assert!(matches!(no_unit, SizeError::NoUnit { .. }));
    assert_eq!(no_unit.message(), "no unit found in size '1.5'");
    let number = parse_size("1..5MB", scale).unwrap_err();
    assert!(matches!(number, SizeError::InvalidNumber { .. }));
    assert_eq!(number.message(), "invalid number in size '1..5MB'");
    assert_eq!(parse_size("MB", scale).unwrap_err().message(), "invalid number in size 'MB'");
    assert_eq!(parse_size(".MB", scale).unwrap_err().message(), "invalid number in size '.MB'");
    let unit = parse_size("100xx", scale).unwrap_err();
    assert!(matches!(unit, SizeError::UnknownUnit { .. }));
    assert_eq!(unit.message(), "unknown size unit 'XX' in '100xx'");
    assert_eq!(parse_size("5\u{e9}", scale).unwrap_err().message(), "unknown size unit '\u{e9}' in '5\u{e9}'");
    assert_eq!(parse_size("", scale).unwrap_err().message(), "no unit found in size ''");
}

#[test]
fn configuration_with_defaults() {
    let parsed = config().parse_and_validate(env(None, Some("/home/u")), scale).unwrap();
    assert_eq!(parsed.upstream, "https://registry.example.com");
    assert_eq!(parsed.bind, "0.0.0.0:8080");
    assert_eq!(parsed.unix_socket, None);
    assert_eq!(parsed.cache_dir, "/home/u/.cache/relaycache/registry.example.com");
    assert_eq!(parsed.cache_max_entries, 100_000);
    assert_eq!(parsed.max_cacheable_size, 512 * 1_048_576);
    assert_eq!(parsed.entry_ttl, Span { secs: 86_400, nanos: 0 });
    assert_eq!(parsed.eviction_interval, Span { secs: 3600, nanos: 0 });
}

#[test]
fn configuration_cache_directories() {
    let xdg = config().parse_and_validate(env(Some("/var/cache/"), Some("/home/u")), scale).unwrap();
    assert_eq!(xdg.cache_dir, "/var/cache/relaycache/registry.example.com");
    let nothing = config().parse_and_validate(env(None, None), scale).unwrap();
    assert_eq!(nothing.cache_dir, "./.cache/relaycache/registry.example.com");
    let empty = config().parse_and_validate(env(Some(""), None), scale).unwrap();
    assert_eq!(empty.cache_dir, "relaycache/registry.example.com");
    let mut given = config();
    given.cache_dir = Some("/srv/cache".to_owned());
    given.upstream = "http://origin:9000//".to_owned();
    given.unix_socket = Some("/run/relay.sock".to_owned());
    given.entry_ttl = "1h 30min 500ms".to_owned();
    let given = given.parse_and_validate(env(Some("/x"), None), scale).unwrap();
    assert_eq!(given.cache_dir, "/srv/cache");
    assert_eq!(given.upstream, "http://origin:9000");
    assert_eq!(given.unix_socket.as_deref(), Some("/run/relay.sock"));
    assert_eq!(given.entry_ttl, Span { secs: 5400, nanos: 500_000_000 });
}

#[test]
fn configuration_errors_in_order() {
    let mut c = config();
    c.max_cacheable_size = "1XX".to_owned();
    c.entry_ttl = "soon".to_owned();
    c.eviction_interval = "never".to_owned();
    let e = c.clone().parse_and_validate(env(None, None), scale).unwrap_err();
    assert!(matches!(e, ConfigError::MaxCacheableSize(_)));
    assert_eq!(e.message(), "--max-cacheable-size: unknown size unit 'XX' in '1XX'");
    c.max_cacheable_size = "1MB".to_owned();
    let e = c.clone().parse_and_validate(env(None, None), scale).unwrap_err();
    assert!(matches!(e, ConfigError::EntryTtl(_)));
    assert_eq!(e.message(), "--entry-ttl: expected number at 0");
    c.entry_ttl = "1h".to_owned();
    let e = c.parse_and_validate(env(None, None), scale).unwrap_err();
    assert!(matches!(e, ConfigError::EvictionInterval(_)));
    assert_eq!(e.message(), "--eviction-interval: expected number at 0");
}

#[test]
fn configuration_from_given_readings() {
    let span = Span { secs: 7, nanos: 5 };
    let parsed = config().validate_with(env(None, None), Ok(12), Ok(span), Ok(Span { secs: 9, nanos: 0 })).unwrap();
    assert_eq!(parsed.max_cacheable_size, 12);
    assert_eq!(parsed.entry_ttl, span);
    assert_eq!(parsed.eviction_interval.secs, 9);
    let e = config().validate_with(env(None, None), Ok(12), Err("no".to_owned()), Err("never".to_owned()));
    assert_eq!(e.unwrap_err().message(), "--entry-ttl: no");
}

#[test]
fn durations_that_can_be_read() {
    for text in [
        "24h",
        "",
        "86400000000000ns",
        "000000000024h",
        "1h 86400000000000ns",
        "1h 30min 500ms",
        "2years 3months 1w 1d",
        "18446744073709551615s",
        "18446744073709551615.5s",
        "99999999999999999999999999s",
        "1h 99999999999999999999999999",
        "1.000000000000y 1s",
        "1h 0.25min 1.5us 2ms",
        "1 2h 3 . 5 min",
        "18446744073709551615s 999999999ns",
        "18446744073709551614.5s 1.25s",
        "1s 1.00000000000000000000000000h",
        "99999999999999999999ns 1s",
        "1week 2\u{b5}s 1millis 1M 1month",
        "soon",
    ] {
        assert!(can_read_span(text), "{text}");
        let mut c = config();
        c.entry_ttl = text.to_owned();
        let parsed = c.parse_and_validate(env(None, None), scale);
        match humantime::parse_duration(text) {
            Ok(d) => {
                let ttl = parsed.unwrap().entry_ttl;
                assert_eq!((ttl.secs, ttl.nanos), (d.as_secs(), d.subsec_nanos()), "{text}");
            }
            Err(e) => assert_eq!(parsed.unwrap_err().message(), format!("--entry-ttl: {e}")),
        }
    }
    let mut day = config();
    day.entry_ttl = "86400000000000ns".to_owned();
    assert_eq!(day.parse_and_validate(env(None, None), scale).unwrap().entry_ttl, Span { secs: 86400, nanos: 0 });
}

#[test]
fn durations_that_add_up_to_too_much() {
    for text in [
        "18446744073709551615s 1s",
        "18446744073709551615s 1000000001ns",
        "584542046091years 1s",
        "7013928460401months 1s",
        "1s 99999999999999999999s",
        "307445734561825860min 16s",
    ] {
        assert!(!can_read_span(text), "{text}");
        let mut c = config();
        c.eviction_interval = text.to_owned();
        let e = c.parse_and_validate(env(None, None), scale).unwrap_err();
        assert!(matches!(e, ConfigError::EvictionInterval(_)));
        let expected = humantime::parse_duration(text).unwrap_err();
        assert_eq!(e.message(), format!("--eviction-interval: {expected}"));
    }
    // These the parser itself does not survive.
    for text in ["18446744073709551615s 1000000000ns", "18446744073709551614.5s 1.5s"] {
        assert!(!can_read_span(text), "{text}");
        assert!(read_span(text).is_err());
    }
    for text in ["584542046090years 1s", "18446744073709551615s 1ns", "7013928460400M 1s", "307445734561825860min 15s"] {
        assert!(can_read_span(text), "{text}");
        let d = humantime::parse_duration(text).unwrap();
        assert_eq!(read_span(text).unwrap(), Span { secs: d.as_secs(), nanos: d.subsec_nanos() });
    }
}

#[test]
fn directory_names_do_not_depend_on_the_scheme() {
    for address in ["registry.example.com", "host:5000/v2", "a//b", "_x_", "", "h\u{e9}"] {
        let name = upstream_fs_name(address);
        assert_eq!(upstream_fs_name(&format!("https://{address}")), name);
        assert_eq!(upstream_fs_name(&format!("http://{address}/")), name);
        assert_eq!(upstream_fs_name(&format!("{address}/")), name);
        assert_eq!(upstream_fs_name(&name), name);
    }
    assert_eq!(upstream_fs_name("https://a//b:::c"), "a__b___c");
}

#[test]
fn paths_are_joined_as_on_unix() {
    assert_eq!(join_paths("/a", "b"), "/a/b");
    assert_eq!(join_paths("/a/", "b"), "/a/b");
    assert_eq!(join_paths("", "b"), "b");
    assert_eq!(join_paths("/a", "/b"), "/b");
    assert_eq!(join_paths("a", ""), "a/");
    for (a, b) in [("/a", "b"), ("/a/", "b"), ("", "b"), ("/a", "/b"), ("a", ""), ("", "")] {
        let joined = std::path::Path::new(a).join(b);
        assert_eq!(joined.to_str().unwrap(), join_paths(a, b));
    }
}
