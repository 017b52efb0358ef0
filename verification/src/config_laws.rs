//! What configuration is for: what the proxy runs with, and what is refused.

use vstd::prelude::*;
use crate::config::{
    address_of, cache_dir_of, checked, config_fault_text, fs_name, fs_safe, is_fs_safe, law_fs_names_are_safe,
    Config, ConfigFault, Environment, Settings,
};
use crate::size::{fault_text, SizeFault};
use crate::text::{in_class, lemma_trim_end, starts_with, text_of, trim, trim_end, CharClass};

verus! {

/// A configuration is refused just where its size or one of its durations is,
/// and by the first of them that is: the size, the lifetime, the interval. The
/// refusal begins with the name of the option.
pub proof fn law_refusals_come_in_order(
    config: Config,
    env: Environment,
    size: Result<u64, SizeFault>,
    ttl: Result<(u64, u32), Seq<char>>,
    interval: Result<(u64, u32), Seq<char>>,
)
    ensures
        checked(config, env, size, ttl, interval) is Err <==> size is Err || ttl is Err || interval is Err,
        size matches Err(e) ==> checked(config, env, size, ttl, interval) == Err::<Settings, ConfigFault>(
            ConfigFault::MaxCacheableSize(e),
        ) && config_fault_text(ConfigFault::MaxCacheableSize(e)) == "--max-cacheable-size: "@ + fault_text(e),
        size is Ok ==> (ttl matches Err(e) ==> checked(config, env, size, ttl, interval) == Err::<
            Settings,
            ConfigFault,
        >(ConfigFault::EntryTtl(e)) && config_fault_text(ConfigFault::EntryTtl(e)) == "--entry-ttl: "@ + e),
        size is Ok && ttl is Ok ==> (interval matches Err(e) ==> checked(config, env, size, ttl, interval) == Err::<
            Settings,
            ConfigFault,
        >(ConfigFault::EvictionInterval(e)) && config_fault_text(ConfigFault::EvictionInterval(e))
            == "--eviction-interval: "@ + e),
{
}

/// What is given is what the proxy runs with: the upstream without slashes at
/// its end, and everything else as it is.
pub proof fn law_settings_are_taken_over(
    config: Config,
    env: Environment,
    size: u64,
    ttl: (u64, u32),
    interval: (u64, u32),
    upstream: Seq<char>,
)
    requires
        upstream.len() == 0 || upstream.last() != '/',
    ensures
        checked(config, env, Ok(size), Ok(ttl), Ok(interval)) matches Ok(s) && {
            &&& config.upstream@ == upstream || config.upstream@ == upstream + seq!['/'] || config.upstream@ == upstream
                + seq!['/', '/'] ==> s.upstream == upstream
            &&& s.upstream.len() == 0 || s.upstream.last() != '/'
            &&& s.bind == config.bind@
            &&& s.unix_socket == text_of(config.unix_socket)
            &&& config.cache_dir matches Some(d) ==> s.cache_dir == d@
            &&& s.cache_max_entries == config.cache_max_entries
            &&& s.max_cacheable_size == size
            &&& s.entry_ttl == ttl
            &&& s.eviction_interval == interval
        },
{
    let class = CharClass::Is('/');
    lemma_trim_end(config.upstream@, class);
    let (one, two) = (upstream + seq!['/'], upstream + seq!['/', '/']);
    assert(one.drop_last() =~= upstream);
    assert(two.drop_last() =~= one);
    assert(trim_end(upstream, class) == upstream);
    assert(trim_end(one, class) == upstream);
    assert(trim_end(two, class) == upstream);
}

/// Where no directory is given, the cache lies in a directory of the
/// upstream's own: below `XDG_CACHE_HOME` where that is set, else below
/// `.cache` in the home directory, else below `.cache` in the current one.
pub proof fn law_caches_lie_in_their_places(config: Config, env: Environment, home: Seq<char>)
    requires
        config.cache_dir is None,
        home.len() > 0,
        home.last() != '/',
    ensures
        ({
            let name = fs_name(trim_end(config.upstream@, CharClass::Is('/')));
            let dir = cache_dir_of(config, env);
            &&& (env.xdg_cache_home matches Some(d) && d@ == home) ==> dir == home + "/relaycache/"@ + name
            &&& (env.xdg_cache_home is None && (env.home matches Some(d) && d@ == home)) ==> dir == home
                + "/.cache/relaycache/"@ + name
            &&& env.xdg_cache_home is None && env.home is None ==> dir == "./.cache/relaycache/"@ + name
        }),
{
    let name = fs_name(trim_end(config.upstream@, CharClass::Is('/')));
    law_fs_names_are_safe(trim_end(config.upstream@, CharClass::Is('/')));
    reveal_strlit("/relaycache/");
    reveal_strlit("/.cache/relaycache/");
    reveal_strlit("./.cache/relaycache/");
    reveal_strlit("relaycache");
    reveal_strlit(".cache");
    reveal_strlit(".");
    assert("relaycache"@[0] == 'r' && "relaycache"@[9] == 'e' && ".cache"@[0] == '.' && ".cache"@[5] == 'e' && "."@[0]
        == '.');
    if name.len() > 0 {
        assert(is_fs_safe(name[0]) || name[0] == '_');
    }
    let dir = cache_dir_of(config, env);
    match (env.xdg_cache_home, env.home) {
        (Some(d), _) => if d@ == home {
            assert(dir =~= home + "/relaycache/"@ + name);
        },
        (None, Some(d)) => if d@ == home {
            assert(dir =~= home + "/.cache/relaycache/"@ + name);
        },
        (None, None) => {
            assert(dir =~= "./.cache/relaycache/"@ + name);
        },
    }
}

/// Whether a text is made of ASCII letters, digits, hyphens and points, as the
/// names and addresses of hosts are.
pub open spec fn is_host(s: Seq<char>) -> bool {
    s.len() > 0 && forall|i: int|
        0 <= i < s.len() ==> ('a' <= #[trigger] s[i] && s[i] <= 'z') || ('A' <= s[i] && s[i] <= 'Z') || ('0' <= s[i]
            && s[i] <= '9') || s[i] == '-' || s[i] == '.'
}

/// A host is its own directory name, and with a port or a path behind it an
/// underscore stands where the colon or the slash was.
pub proof fn law_hosts_name_their_directories(host: Seq<char>, c: char, rest: Seq<char>)
    requires
        is_host(host),
        is_host(rest),
        !is_host(seq![c]),
    ensures
        fs_name(host) == host,
        fs_name(host + seq![c] + rest) == host + seq!['_'] + rest,
{
    let whole = host + seq![c] + rest;
    assert(!is_fs_safe(c)) by {
        if is_fs_safe(c) {
            let one = seq![c];
            assert(one.len() > 0 && forall|i: int| 0 <= i < one.len() ==> is_fs_safe(#[trigger] one[i]));
            assert(is_host(one));
        }
    }
    assert forall|i: int| 0 <= i < host.len() implies is_fs_safe(#[trigger] host[i]) by {}
    assert(!in_class(host[host.len() - 1], CharClass::Is('/')));
    lemma_no_scheme(host, -1);
    assert(fs_safe(host) =~= host);
    assert(host.last() == host[host.len() - 1]);
    assert(trim(host, CharClass::Is('_')) == host);
    assert(whole[0] == host[0] && whole.last() == rest[rest.len() - 1] && whole[whole.len() - 1] == rest[rest.len()
        - 1]);
    assert(is_fs_safe(rest[rest.len() - 1]));
    assert(whole[host.len() as int] == c);
    assert forall|i: int| 0 <= i < whole.len() && i != host.len() implies is_fs_safe(#[trigger] whole[i]) by {
        if i < host.len() {
            assert(whole[i] == host[i]);
        } else {
            assert(whole[i] == rest[i - host.len() - 1]);
        }
    }
    lemma_no_scheme(whole, host.len() as int);
    let named = host + seq!['_'] + rest;
    assert(fs_safe(whole) =~= named) by {
        assert forall|i: int| 0 <= i < whole.len() implies #[trigger] fs_safe(whole)[i] == named[i] by {
            if i < host.len() {
                assert(whole[i] == host[i]);
            } else if i > host.len() {
                assert(whole[i] == rest[i - host.len() - 1]);
                assert(is_fs_safe(rest[i - host.len() - 1]));
            }
        }
    }
    assert(named[0] == host[0] && named.last() == rest[rest.len() - 1]);
    assert(trim(named, CharClass::Is('_')) == named);
}

/// A text with at most one character that is not safe has no scheme in front.
proof fn lemma_no_scheme(s: Seq<char>, k: int)
    requires
        s.len() > 0,
        is_fs_safe(s[s.len() - 1]),
        forall|i: int| 0 <= i < s.len() && i != k ==> is_fs_safe(#[trigger] s[i]),
    ensures
        address_of(s) == s,
{
    reveal_strlit("https://");
    reveal_strlit("http://");
    assert("https://"@[5] == ':' && "https://"@[6] == '/' && "http://"@[4] == ':' && "http://"@[5] == '/');
    if starts_with(s, "https://"@) {
        assert(s.take(8)[5] == s[5] && s.take(8)[6] == s[6]);
        assert(!is_fs_safe(s[5]) && !is_fs_safe(s[6]));
    }
    if starts_with(s, "http://"@) {
        assert(s.take(7)[4] == s[4] && s.take(7)[5] == s[5]);
        assert(!is_fs_safe(s[4]) && !is_fs_safe(s[5]));
    }
    assert(s.last() == s[s.len() - 1]);
}

}
