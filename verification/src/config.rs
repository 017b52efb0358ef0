//! Configuration: what the command line and the environment give, checked and
//! brought into the form that the proxy runs with.

use vstd::prelude::*;
use vstd::slice::slice_subrange;
use vstd::string::StringExecFns;
use crate::paths::{join_paths, path_join};
use crate::size::{fault_text, parse_size, size_meaning, SizeError, SizeFault, SizeMeaning};
use crate::spans::{read_span, span_of, span_view, Span};
use crate::text::{
    chars_of, has_prefix, in_class, lemma_trim_end, lemma_trim_start, starts_with, text_from, text_of, trim,
    trim_end, trim_start, trimmed, trimmed_end, CharClass,
};

verus! {

// ---------------------------------------------------------------------------
// The directory of an upstream
// ---------------------------------------------------------------------------

/// A text without a prefix, however often it stands in front.
pub open spec fn strip_repeated(s: Seq<char>, prefix: Seq<char>) -> Seq<char>
    decreases s.len(),
{
    if prefix.len() > 0 && starts_with(s, prefix) {
        strip_repeated(s.skip(prefix.len() as int), prefix)
    } else {
        s
    }
}

/// Whether a character is an ASCII letter or digit, a hyphen or a point.
pub open spec fn is_fs_safe(c: char) -> bool {
    ||| 'a' <= c && c <= 'z'
    ||| 'A' <= c && c <= 'Z'
    ||| '0' <= c && c <= '9'
    ||| c == '-'
    ||| c == '.'
}

/// A text with an underscore in place of every other character.
pub open spec fn fs_safe(s: Seq<char>) -> Seq<char> {
    s.map_values(|c: char| if is_fs_safe(c) { c } else { '_' })
}

/// The address of an upstream: its URL without the scheme and trailing slashes.
pub open spec fn address_of(upstream: Seq<char>) -> Seq<char> {
    trim_end(
        strip_repeated(strip_repeated(upstream, "https://"@), "http://"@),
        CharClass::Is('/'),
    )
}

/// The directory name for an upstream: its address, made safe, without
/// underscores at either end.
pub open spec fn fs_name(upstream: Seq<char>) -> Seq<char> {
    trim(fs_safe(address_of(upstream)), CharClass::Is('_'))
}

fn without_prefix<'a>(s: &'a [char], prefix: &str) -> (r: &'a [char])
    requires
        prefix@.len() > 0,
    ensures
        r@ == strip_repeated(s@, prefix@),
{
    let n: usize = chars_of(prefix).len();
    let mut rest: &'a [char] = s;
    while has_prefix(rest, prefix)
        invariant
            n == prefix@.len(),
            n > 0,
            strip_repeated(rest@, prefix@) == strip_repeated(s@, prefix@),
        decreases rest@.len(),
    {
        let tail = slice_subrange(rest, n, rest.len());
        assert(tail@ =~= rest@.skip(n as int));
        rest = tail;
    }
    rest
}

/// Converts an upstream URL into a directory name.
///
/// - `https://registry.example.com`      gives `registry.example.com`
/// - `https://registry.example.com:5000` gives `registry.example.com_5000`
/// - `https://registry.example.com/v2`   gives `registry.example.com_v2`
pub fn upstream_fs_name(upstream: &str) -> (r: String)
    ensures
        r@ == fs_name(upstream@),
{
    let all = chars_of(upstream);
    proof {
        reveal_strlit("https://");
        reveal_strlit("http://");
    }
    let address = trimmed_end(
        without_prefix(without_prefix(all.as_slice(), "https://"), "http://"),
        CharClass::Is('/'),
    );
    let mut name: Vec<char> = Vec::new();
    let mut i: usize = 0;
    while i < address.len()
        invariant
            i <= address@.len(),
            name@ == fs_safe(address@.take(i as int)),
        decreases address@.len() - i,
    {
        let c = address[i];
        if ('a' <= c && c <= 'z') || ('A' <= c && c <= 'Z') || ('0' <= c && c <= '9') || c == '-' || c == '.' {
            name.push(c);
        } else {
            name.push('_');
        }
        i += 1;
        assert(name@ =~= fs_safe(address@.take(i as int)));
    }
    assert(address@.take(i as int) =~= address@);
    text_from(trimmed(name.as_slice(), CharClass::Is('_')))
}

/// A directory name for an upstream has no slash and no other character that
/// is special in a path, and does not begin or end with an underscore.
pub proof fn law_fs_names_are_safe(upstream: Seq<char>)
    ensures
        forall|i: int|
            0 <= i < fs_name(upstream).len() ==> is_fs_safe(#[trigger] fs_name(upstream)[i]) || fs_name(upstream)[i]
                == '_',
        fs_name(upstream).len() > 0 ==> fs_name(upstream)[0] != '_' && fs_name(upstream).last() != '_',
{
    let name = fs_safe(address_of(upstream));
    let class = CharClass::Is('_');
    let opened = trim_start(name, class);
    lemma_trim_start(name, class);
    lemma_trim_end(opened, class);
    assert forall|i: int| 0 <= i < fs_name(upstream).len() implies is_fs_safe(#[trigger] fs_name(upstream)[i])
        || fs_name(upstream)[i] == '_' by {
        let k = name.len() - opened.len() + i;
        assert(fs_name(upstream)[i] == name[k]);
    }
}

/// Whether a text stands in another one behind so many characters, with
/// nothing but underscores around it.
pub open spec fn is_all_but_ends(part: Seq<char>, whole: Seq<char>, k: int) -> bool {
    &&& 0 <= k <= k + part.len() <= whole.len()
    &&& part == whole.subrange(k, k + part.len())
    &&& forall|i: int| 0 <= i < whole.len() && !(k <= i < k + part.len()) ==> #[trigger] whole[i] == '_'
}

/// Every character of an upstream's address stands in its directory name, an
/// underscore in place of each one that is not safe; runs of them are not
/// drawn together. Only underscores at either end are missing.
pub proof fn law_fs_names_keep_every_character(upstream: Seq<char>)
    ensures
        exists|k: int| #[trigger] is_all_but_ends(fs_name(upstream), fs_safe(address_of(upstream)), k),
{
    let whole = fs_safe(address_of(upstream));
    let class = CharClass::Is('_');
    let opened = trim_start(whole, class);
    let n = fs_name(upstream).len();
    lemma_trim_start(whole, class);
    lemma_trim_end(opened, class);
    let k = whole.len() - opened.len();
    assert(fs_name(upstream) =~= whole.subrange(k, k + n));
    assert forall|i: int| 0 <= i < whole.len() && !(k <= i < k + n) implies #[trigger] whole[i] == '_' by {
        if i < k {
            assert(in_class(whole[i], class));
        } else {
            assert(in_class(opened[i - k], class));
        }
    }
    assert(is_all_but_ends(fs_name(upstream), whole, k));
}

/// A directory name is its own directory name.
pub proof fn law_fs_names_are_final(upstream: Seq<char>)
    ensures
        fs_name(fs_name(upstream)) == fs_name(upstream),
{
    let name = fs_name(upstream);
    law_fs_names_are_safe(upstream);
    reveal_strlit("https://");
    reveal_strlit("http://");
    assert("https://"@[5] == ':' && "http://"@[4] == ':');
    if starts_with(name, "https://"@) {
        assert(name.take(8)[5] == name[5]);
    }
    if starts_with(name, "http://"@) {
        assert(name.take(7)[4] == name[4]);
    }
    if name.len() > 0 {
        assert(is_fs_safe(name[name.len() - 1]) || name[name.len() - 1] == '_');
    }
    assert(address_of(name) == name);
    assert(fs_safe(name) =~= name);
}

/// A scheme goes from the front of an upstream's URL however often it stands
/// there.
pub proof fn law_repeated_schemes_go(upstream: Seq<char>)
    ensures
        fs_name("https://"@ + upstream) == fs_name(upstream),
        !starts_with(upstream, "https://"@) ==> fs_name("http://"@ + upstream) == fs_name(upstream),
{
    reveal_strlit("https://");
    reveal_strlit("http://");
    let (a, b) = ("https://"@ + upstream, "http://"@ + upstream);
    assert(a.take(8) =~= "https://"@);
    assert(a.skip(8) =~= upstream);
    assert(b.take(7) =~= "http://"@);
    assert(b.skip(7) =~= upstream);
    assert("https://"@[4] == 's' && "http://"@[4] == ':');
    assert(!starts_with(b, "https://"@)) by {
        if starts_with(b, "https://"@) {
            assert(b.take(8)[4] == b[4]);
        }
    }
    assert(strip_repeated(a, "https://"@) == strip_repeated(upstream, "https://"@));
    assert(strip_repeated(b, "https://"@) == b);
    assert(strip_repeated(b, "http://"@) == strip_repeated(upstream, "http://"@));
}

/// Neither the scheme nor a slash at the end of an upstream's URL goes into
/// its directory name.
///
/// The URL may not have a scheme already, nor may the slash make it one, as it
/// would `https:/`.
pub proof fn law_schemes_and_slashes_do_not_matter(upstream: Seq<char>)
    requires
        !starts_with(upstream, "https://"@),
        !starts_with(upstream, "http://"@),
        !starts_with(upstream.push('/'), "https://"@),
        !starts_with(upstream.push('/'), "http://"@),
    ensures
        fs_name("https://"@ + upstream) == fs_name(upstream),
        fs_name("http://"@ + upstream) == fs_name(upstream),
        fs_name(upstream.push('/')) == fs_name(upstream),
        fs_name("https://"@ + upstream.push('/')) == fs_name(upstream),
        fs_name("http://"@ + upstream.push('/')) == fs_name(upstream),
{
    let slashed = upstream.push('/');
    lemma_scheme_is_stripped(upstream);
    lemma_scheme_is_stripped(slashed);
    assert(slashed.drop_last() =~= upstream);
    assert(trim_end(slashed, CharClass::Is('/')) == trim_end(upstream, CharClass::Is('/')));
}

proof fn lemma_scheme_is_stripped(s: Seq<char>)
    requires
        !starts_with(s, "https://"@),
        !starts_with(s, "http://"@),
    ensures
        address_of(s) == trim_end(s, CharClass::Is('/')),
        address_of("https://"@ + s) == trim_end(s, CharClass::Is('/')),
        address_of("http://"@ + s) == trim_end(s, CharClass::Is('/')),
{
    reveal_strlit("https://");
    reveal_strlit("http://");
    let (a, b) = ("https://"@ + s, "http://"@ + s);
    assert(a.take(8) =~= "https://"@);
    assert(a.skip(8) =~= s);
    assert(b.take(7) =~= "http://"@);
    assert(b.skip(7) =~= s);
    assert("https://"@[4] == 's' && "http://"@[4] == ':');
    assert(!starts_with(b, "https://"@)) by {
        if starts_with(b, "https://"@) {
            assert(b.take(8)[4] == b[4]);
        }
    }
    assert(strip_repeated(a, "https://"@) == strip_repeated(s, "https://"@));
    assert(strip_repeated(s, "https://"@) == s);
    assert(strip_repeated(b, "http://"@) == strip_repeated(s, "http://"@));
    assert(strip_repeated(s, "http://"@) == s);
}

// ---------------------------------------------------------------------------
// Configuration
// ---------------------------------------------------------------------------

/// What the command line gives.
#[derive(Debug, Clone)]
pub struct Config {
    /// Upstream base URL.
    pub upstream: String,
    /// TCP address to listen on, where there is no Unix socket.
    pub bind: String,
    /// Unix domain socket path.
    pub unix_socket: Option<String>,
    /// Directory for blob files and the database.
    pub cache_dir: Option<String>,
    /// Maximum number of in-memory index entries.
    pub cache_max_entries: u64,
    /// Size above which bodies are not cached.
    pub max_cacheable_size: String,
    /// How long a cache entry lives without being accessed.
    pub entry_ttl: String,
    /// How often the eviction job runs.
    pub eviction_interval: String,
}

/// What the environment gives.
#[derive(Debug)]
pub struct Environment {
    /// `XDG_CACHE_HOME`.
    pub xdg_cache_home: Option<String>,
    /// `HOME`.
    pub home: Option<String>,
}

/// Configuration that the proxy runs with.
#[derive(Debug)]
pub struct ParsedConfig {
    pub upstream: String,
    pub bind: String,
    pub unix_socket: Option<String>,
    pub cache_dir: String,
    pub cache_max_entries: u64,
    pub max_cacheable_size: u64,
    pub entry_ttl: Span,
    pub eviction_interval: Span,
}

/// The contents of a configuration.
pub struct Settings {
    pub upstream: Seq<char>,
    pub bind: Seq<char>,
    pub unix_socket: Option<Seq<char>>,
    pub cache_dir: Seq<char>,
    pub cache_max_entries: u64,
    pub max_cacheable_size: u64,
    pub entry_ttl: (u64, u32),
    pub eviction_interval: (u64, u32),
}

impl View for ParsedConfig {
    type V = Settings;

    open spec fn view(&self) -> Settings {
        Settings {
            upstream: self.upstream@,
            bind: self.bind@,
            unix_socket: text_of(self.unix_socket),
            cache_dir: self.cache_dir@,
            cache_max_entries: self.cache_max_entries,
            max_cacheable_size: self.max_cacheable_size,
            entry_ttl: (self.entry_ttl.secs, self.entry_ttl.nanos),
            eviction_interval: (self.eviction_interval.secs, self.eviction_interval.nanos),
        }
    }
}

/// Why a configuration is refused.
#[derive(Debug)]
pub enum ConfigError {
    /// `--max-cacheable-size` is no size.
    MaxCacheableSize(SizeError),
    /// `--entry-ttl` is no duration.
    EntryTtl(String),
    /// `--eviction-interval` is no duration.
    EvictionInterval(String),
}

/// What a configuration error says.
pub enum ConfigFault {
    MaxCacheableSize(SizeFault),
    EntryTtl(Seq<char>),
    EvictionInterval(Seq<char>),
}

impl View for ConfigError {
    type V = ConfigFault;

    open spec fn view(&self) -> ConfigFault {
        match self {
            ConfigError::MaxCacheableSize(e) => ConfigFault::MaxCacheableSize(e@),
            ConfigError::EntryTtl(e) => ConfigFault::EntryTtl(e@),
            ConfigError::EvictionInterval(e) => ConfigFault::EvictionInterval(e@),
        }
    }
}

/// The message of a configuration error.
pub open spec fn config_fault_text(e: ConfigFault) -> Seq<char> {
    match e {
        ConfigFault::MaxCacheableSize(e) => "--max-cacheable-size: "@ + fault_text(e),
        ConfigFault::EntryTtl(e) => "--entry-ttl: "@ + e,
        ConfigFault::EvictionInterval(e) => "--eviction-interval: "@ + e,
    }
}

impl ConfigError {
    /// The message of the error.
    pub fn message(&self) -> (s: String)
        ensures
            s@ == config_fault_text(self@),
    {
        match self {
            ConfigError::MaxCacheableSize(e) => {
                let mut s = String::from_str("--max-cacheable-size: ");
                s.append(e.message().as_str());
                s
            },
            ConfigError::EntryTtl(e) => {
                let mut s = String::from_str("--entry-ttl: ");
                s.append(e.as_str());
                s
            },
            ConfigError::EvictionInterval(e) => {
                let mut s = String::from_str("--eviction-interval: ");
                s.append(e.as_str());
                s
            },
        }
    }
}

/// The directory that holds the caches of all upstreams: `XDG_CACHE_HOME`, or
/// `.cache` in the home directory, or in the current one.
pub open spec fn cache_home(env: Environment) -> Seq<char> {
    match env.xdg_cache_home {
        Some(d) => d@,
        None => path_join(
            match env.home {
                Some(d) => d@,
                None => "."@,
            },
            ".cache"@,
        ),
    }
}

/// The cache directory of a configuration: the one given, or one of the
/// upstream's own in the cache home.
pub open spec fn cache_dir_of(config: Config, env: Environment) -> Seq<char> {
    match config.cache_dir {
        Some(d) => d@,
        None => path_join(
            path_join(cache_home(env), "relaycache"@),
            fs_name(trim_end(config.upstream@, CharClass::Is('/'))),
        ),
    }
}

/// What comes of a configuration, given what its size and its durations
/// denote. The size is looked at first, then the lifetime of entries, then
/// the eviction interval.
pub open spec fn checked(
    config: Config,
    env: Environment,
    size: Result<u64, SizeFault>,
    ttl: Result<(u64, u32), Seq<char>>,
    interval: Result<(u64, u32), Seq<char>>,
) -> Result<Settings, ConfigFault> {
    match (size, ttl, interval) {
        (Err(e), _, _) => Err(ConfigFault::MaxCacheableSize(e)),
        (_, Err(e), _) => Err(ConfigFault::EntryTtl(e)),
        (_, _, Err(e)) => Err(ConfigFault::EvictionInterval(e)),
        (Ok(size), Ok(ttl), Ok(interval)) => Ok(
            Settings {
                upstream: trim_end(config.upstream@, CharClass::Is('/')),
                bind: config.bind@,
                unix_socket: text_of(config.unix_socket),
                cache_dir: cache_dir_of(config, env),
                cache_max_entries: config.cache_max_entries,
                max_cacheable_size: size,
                entry_ttl: ttl,
                eviction_interval: interval,
            },
        ),
    }
}

/// A parsed configuration, or why there is none.
pub open spec fn outcome(r: Result<ParsedConfig, ConfigError>) -> Result<Settings, ConfigFault> {
    match r {
        Ok(c) => Ok(c@),
        Err(e) => Err(e@),
    }
}

/// A size, or why there is none.
pub open spec fn size_view(r: Result<u64, SizeError>) -> Result<u64, SizeFault> {
    match r {
        Ok(n) => Ok(n),
        Err(e) => Err(e@),
    }
}

impl Config {
    /// Brings a configuration into the form that the proxy runs with, given
    /// what its size and its durations denote.
    pub fn validate_with(
        self,
        env: Environment,
        size: Result<u64, SizeError>,
        ttl: Result<Span, String>,
        interval: Result<Span, String>,
    ) -> (r: Result<ParsedConfig, ConfigError>)
        ensures
            outcome(r) == checked(self, env, size_view(size), span_view(ttl), span_view(interval)),
    {
        let max_cacheable_size: u64 = match size {
            Ok(n) => n,
            Err(e) => return Err(ConfigError::MaxCacheableSize(e)),
        };
        let entry_ttl: Span = match ttl {
            Ok(d) => d,
            Err(e) => return Err(ConfigError::EntryTtl(e)),
        };
        let eviction_interval: Span = match interval {
            Ok(d) => d,
            Err(e) => return Err(ConfigError::EvictionInterval(e)),
        };
        let all = chars_of(self.upstream.as_str());
        let upstream = text_from(trimmed_end(all.as_slice(), CharClass::Is('/')));
        let cache_dir: String = match self.cache_dir {
            Some(dir) => dir,
            None => {
                let home: String = match env.xdg_cache_home {
                    Some(dir) => dir,
                    None => match env.home {
                        Some(dir) => join_paths(dir.as_str(), ".cache"),
                        None => join_paths(".", ".cache"),
                    },
                };
                let name = upstream_fs_name(upstream.as_str());
                join_paths(join_paths(home.as_str(), "relaycache").as_str(), name.as_str())
            },
        };
        Ok(
            ParsedConfig {
                upstream,
                bind: self.bind,
                unix_socket: self.unix_socket,
                cache_dir,
                cache_max_entries: self.cache_max_entries,
                max_cacheable_size,
                entry_ttl,
                eviction_interval,
            },
        )
    }

    /// Reads the size and the durations of a configuration, and brings it
    /// into the form that the proxy runs with. `scale` multiplies a decimal
    /// number by the bytes of its unit, as in `parse_size`.
    pub fn parse_and_validate<F: Fn(String, u64) -> u64>(self, env: Environment, scale: F) -> (r: Result<
        ParsedConfig,
        ConfigError,
    >)
        requires
            forall|number: String, unit: u64| #[trigger] scale.requires((number, unit)),
        ensures
            match size_meaning(self.max_cacheable_size@) {
                SizeMeaning::Bytes(n) => outcome(r) == checked(
                    self,
                    env,
                    Ok(n),
                    span_of(self.entry_ttl@),
                    span_of(self.eviction_interval@),
                ),
                SizeMeaning::Scaled { number, unit } => exists|t: String, u: u64, n: u64|
                    t@ == number && u == unit && #[trigger] scale.ensures((t, u), n) && outcome(r) == checked(
                        self,
                        env,
                        Ok(n),
                        span_of(self.entry_ttl@),
                        span_of(self.eviction_interval@),
                    ),
                SizeMeaning::Fault(e) => outcome(r) == Err::<Settings, ConfigFault>(
                    ConfigFault::MaxCacheableSize(e),
                ),
            },
    {
        let size = parse_size(self.max_cacheable_size.as_str(), scale);
        let ttl = read_span(self.entry_ttl.as_str());
        let interval = read_span(self.eviction_interval.as_str());
        self.validate_with(env, size, ttl, interval)
    }
}

}
