//! The options of the link checker, with their defaults.

use vstd::prelude::*;
use crate::environment::Environment;
use crate::hashed_regex::{
    compile_patterns, compiled_from, regex_compiles, regex_finds, HashedRegex, PatternError,
};
use crate::header::{
    all_parse, header_records, parse_headers, parse_outcome, parse_record, parsed_from, record_of,
    HttpHeader, ParseError,
};

verus! {

/// How should warnings be treated?
#[derive(Debug, Copy, Clone, PartialEq, Eq, Structural)]
pub enum WarningPolicy {
    /// Silently ignore them.
    Ignore,
    /// Warn the user, but don't fail the linkcheck.
    Warn,
    /// Treat warnings as errors.
    Error,
}

impl Default for WarningPolicy {
    fn default() -> (r: WarningPolicy)
        ensures
            r == WarningPolicy::Warn,
    {
        WarningPolicy::Warn
    }
}

/// The configuration options available with this backend.
///
/// Two configurations are equal when their options are, header values
/// being compared as written.
#[derive(Debug, Clone, PartialEq)]
pub struct Config {
    /// If a link on the internet is encountered, should we still try to check
    /// if it's valid? Defaults to `false` because this has a big performance
    /// impact.
    pub follow_web_links: bool,
    /// Are we allowed to link to files outside of the book's source directory?
    pub traverse_parent_directories: bool,
    /// A list of URL patterns to ignore when checking remote links.
    pub exclude: Vec<HashedRegex>,
    /// The user-agent used whenever any web requests are made.
    pub user_agent: String,
    /// The number of seconds a cached result is valid for.
    pub cache_timeout: u64,
    /// The policy to use when warnings are encountered.
    pub warning_policy: WarningPolicy,
    /// The regexes representing sets of web sites, each with the list of
    /// HTTP headers that must be sent to matching sites.
    pub http_headers: Vec<(HashedRegex, Vec<HttpHeader>)>,
}

/// The default cache timeout in seconds (12 hours).
pub const DEFAULT_CACHE_TIMEOUT: u64 = 60 * 60 * 12;

/// The default user-agent: the name of this package and its version.
pub const DEFAULT_USER_AGENT: &'static str = "mdbook-linkcheck-0.7.7";

/// Some pattern of `exclude` matches `link`.
pub open spec fn excluded(exclude: Seq<HashedRegex>, link: Seq<char>) -> bool {
    exists|i: int| 0 <= i < exclude.len() && regex_finds(#[trigger] exclude[i].source(), link)
}

/// With no exclusion patterns no link is skipped.
pub proof fn lemma_no_patterns_skip_nothing(link: Seq<char>)
    ensures
        !excluded(Seq::<HashedRegex>::empty(), link),
{
}

/// The default cache timeout, in seconds.
pub fn default_cache_timeout() -> (r: u64)
    ensures
        r == 43200,
{
    DEFAULT_CACHE_TIMEOUT
}

/// The default user-agent.
pub fn default_user_agent() -> (r: String)
    ensures
        r@ == DEFAULT_USER_AGENT@,
{
    DEFAULT_USER_AGENT.to_owned()
}

/// The options as read from a configuration file, before defaults are
/// applied: `None` where the file leaves an option out. Patterns and header
/// records are as written.
#[derive(Debug, Clone, PartialEq)]
pub struct RawConfig {
    pub follow_web_links: Option<bool>,
    pub traverse_parent_directories: Option<bool>,
    pub exclude: Option<Vec<String>>,
    pub user_agent: Option<String>,
    pub cache_timeout: Option<u64>,
    pub warning_policy: Option<WarningPolicy>,
    pub http_headers: Option<Vec<(String, Vec<String>)>>,
}

/// Why a configuration could not be loaded.
#[derive(Debug, Clone, PartialEq, Eq)]
pub enum ConfigError {
    /// A pattern is not a valid regular expression.
    Pattern(PatternError),
    /// A header record was rejected.
    Header(ParseError),
}

/// The value of `o`, or `d` where there is none.
pub open spec fn or_default<T>(o: Option<T>, d: T) -> T {
    match o {
        Some(v) => v,
        None => d,
    }
}

/// The patterns of `raw` as written, in order: those of `exclude`.
pub open spec fn raw_exclude(raw: RawConfig) -> Seq<String> {
    match raw.exclude {
        Some(v) => v@,
        None => Seq::empty(),
    }
}

/// The header lists of `raw` as written, in order.
pub open spec fn raw_headers(raw: RawConfig) -> Seq<(String, Vec<String>)> {
    match raw.http_headers {
        Some(v) => v@,
        None => Seq::empty(),
    }
}

/// Every pattern and every header record of `raw` is accepted in `env`.
pub open spec fn raw_loads(raw: RawConfig, env: Map<Seq<char>, Seq<char>>) -> bool {
    &&& forall|i: int|
        0 <= i < raw_exclude(raw).len() ==> regex_compiles(#[trigger] raw_exclude(raw)[i]@)
    &&& forall|i: int|
        0 <= i < raw_headers(raw).len() ==> regex_compiles((#[trigger] raw_headers(raw)[i]).0@)
            && all_parse(raw_headers(raw)[i].1@, env)
}

/// `lists` are compiled and parsed in `env` from `raw`, in order.
pub open spec fn header_lists_from(
    lists: Seq<(HashedRegex, Vec<HttpHeader>)>,
    raw: Seq<(String, Vec<String>)>,
    env: Map<Seq<char>, Seq<char>>,
) -> bool {
    lists.len() == raw.len() && forall|i: int|
        0 <= i < lists.len() ==> (#[trigger] lists[i]).0.source() == raw[i].0@ && parsed_from(
            lists[i].1@,
            raw[i].1@,
            env,
        )
}

/// `records` are what `headers` are written as, in order.
pub open spec fn written_as(headers: Seq<HttpHeader>, records: Seq<String>) -> bool {
    headers.len() == records.len() && forall|j: int|
        0 <= j < headers.len() ==> records[j]@ == record_of(
            (#[trigger] headers[j]).parts().0,
            headers[j].parts().1,
        )
}

/// `c` is what `raw` loads to in `env`: each option that `raw` leaves out
/// takes its default, patterns are compiled and header records parsed.
pub open spec fn loaded_from(c: Config, raw: RawConfig, env: Map<Seq<char>, Seq<char>>) -> bool {
    &&& c.follow_web_links == or_default(raw.follow_web_links, false)
    &&& c.traverse_parent_directories == or_default(raw.traverse_parent_directories, false)
    &&& compiled_from(c.exclude@, raw_exclude(raw))
    &&& c.user_agent@ == (match raw.user_agent {
        Some(s) => s@,
        None => DEFAULT_USER_AGENT@,
    })
    &&& c.cache_timeout == or_default(raw.cache_timeout, DEFAULT_CACHE_TIMEOUT)
    &&& c.warning_policy == or_default(raw.warning_policy, WarningPolicy::Warn)
    &&& header_lists_from(c.http_headers@, raw_headers(raw), env)
}

/// `r` is `c` as written: every option present, patterns as written, and
/// each header as its name and literal value.
pub open spec fn written_from(c: Config, r: RawConfig) -> bool {
    &&& r.follow_web_links == Some(c.follow_web_links)
    &&& r.traverse_parent_directories == Some(c.traverse_parent_directories)
    &&& r.exclude is Some && compiled_from(c.exclude@, r.exclude->Some_0@)
    &&& r.user_agent is Some && r.user_agent->Some_0@ == c.user_agent@
    &&& r.cache_timeout == Some(c.cache_timeout)
    &&& r.warning_policy == Some(c.warning_policy)
    &&& r.http_headers is Some && r.http_headers->Some_0.len() == c.http_headers.len()
    &&& forall|i: int|
        0 <= i < c.http_headers.len() ==> (#[trigger] r.http_headers->Some_0@[i]).0@
            == c.http_headers@[i].0.source() && written_as(
            c.http_headers@[i].1@,
            r.http_headers->Some_0@[i].1@,
        )
}

/// `a` and `b` hold the same headers: same names, literal values and
/// resolved values, in the same order.
pub open spec fn same_headers(a: Seq<HttpHeader>, b: Seq<HttpHeader>) -> bool {
    a.len() == b.len() && forall|j: int| 0 <= j < a.len() ==> (#[trigger] a[j]).parts() == b[j].parts()
}

/// `a` and `b` hold the same options, patterns and headers.
pub open spec fn same_options(a: Config, b: Config) -> bool {
    &&& a.follow_web_links == b.follow_web_links
    &&& a.traverse_parent_directories == b.traverse_parent_directories
    &&& a.exclude.len() == b.exclude.len()
    &&& forall|i: int| 0 <= i < a.exclude.len() ==> (#[trigger] a.exclude@[i]).source() == b.exclude@[i].source()
    &&& a.user_agent@ == b.user_agent@
    &&& a.cache_timeout == b.cache_timeout
    &&& a.warning_policy == b.warning_policy
    &&& a.http_headers.len() == b.http_headers.len()
    &&& forall|i: int|
        0 <= i < a.http_headers.len() ==> (#[trigger] a.http_headers@[i]).0.source()
            == b.http_headers@[i].0.source() && same_headers(
            a.http_headers@[i].1@,
            b.http_headers@[i].1@,
        )
}

/// A loaded configuration, written out and loaded again in the same
/// environment, loads without error and gives the same options, patterns
/// and headers (resolved values included).
pub proof fn lemma_config_round_trip(
    c: Config,
    raw: RawConfig,
    written: RawConfig,
    again: Config,
    env: Map<Seq<char>, Seq<char>>,
)
    requires
        raw_loads(raw, env),
        loaded_from(c, raw, env),
        written_from(c, written),
    ensures
        raw_loads(written, env),
        loaded_from(again, written, env) ==> same_options(again, c),
{
    let rh = raw_headers(raw);
    let wh = raw_headers(written);
    assert(wh == written.http_headers->Some_0@);
    // Each written record is the record it was loaded from.
    assert forall|i: int, j: int| 0 <= i < wh.len() && 0 <= j < wh[i].1.len() implies (
    #[trigger] wh[i].1@[j])@ == rh[i].1@[j]@ by {
        let hs = c.http_headers@[i].1@;
        assert(wh == written.http_headers->Some_0@);
        assert(parsed_from(hs, rh[i].1@, env));
        crate::header::lemma_header_list_reproduced(hs, rh[i].1@, env);
        assert(written_as(hs, wh[i].1@));
        assert(wh[i].1@[j]@ == record_of(hs[j].parts().0, hs[j].parts().1));
    }
    assert forall|i: int| 0 <= i < raw_exclude(written).len() implies regex_compiles(
        #[trigger] raw_exclude(written)[i]@,
    ) by {
        assert(c.exclude@[i].source() == raw_exclude(raw)[i]@);
    }
    assert forall|i: int| 0 <= i < wh.len() implies regex_compiles((#[trigger] wh[i]).0@)
        && all_parse(wh[i].1@, env) by {
        assert(c.http_headers@[i].0.source() == rh[i].0@);
        assert(regex_compiles(rh[i].0@));
        assert(all_parse(rh[i].1@, env));
        assert forall|j: int| 0 <= j < wh[i].1.len() implies (#[trigger] parse_record(
            wh[i].1@[j]@,
            env,
        )) is Ok by {
            assert(wh[i].1@[j]@ == rh[i].1@[j]@);
            assert(parse_record(rh[i].1@[j]@, env) is Ok);
        }
    }
    if loaded_from(again, written, env) {
        assert forall|i: int| 0 <= i < again.exclude.len() implies (
        #[trigger] again.exclude@[i]).source() == c.exclude@[i].source() by {
            assert(again.exclude@[i].source() == raw_exclude(written)[i]@);
        }
        assert forall|i: int| 0 <= i < again.http_headers.len() implies (
        #[trigger] again.http_headers@[i]).0.source() == c.http_headers@[i].0.source()
            && same_headers(again.http_headers@[i].1@, c.http_headers@[i].1@) by {
            assert(again.http_headers@[i].0.source() == wh[i].0@);
            assert(parsed_from(again.http_headers@[i].1@, wh[i].1@, env));
            assert(parsed_from(c.http_headers@[i].1@, rh[i].1@, env));
            assert forall|j: int| 0 <= j < again.http_headers@[i].1.len() implies (
            #[trigger] again.http_headers@[i].1@[j]).parts() == c.http_headers@[i].1@[j].parts() by {
                assert(wh[i].1@[j]@ == rh[i].1@[j]@);
                assert(parse_outcome(Ok(again.http_headers@[i].1@[j])) == parse_record(wh[i].1@[j]@, env));
                assert(parse_outcome(Ok(c.http_headers@[i].1@[j])) == parse_record(rh[i].1@[j]@, env));
            }
        }
    }
}

/// The sources of `patterns`, in order.
fn pattern_sources(patterns: &Vec<HashedRegex>) -> (r: Vec<String>)
    ensures
        compiled_from(patterns@, r@),
{
    let mut r: Vec<String> = Vec::new();
    for i in 0..patterns.len()
        invariant
            compiled_from(patterns@.take(i as int), r@),
    {
        r.push(patterns[i].as_str().to_owned());
        assert(patterns@.take(i + 1)[i as int] == patterns@[i as int]);
    }
    assert(patterns@.take(patterns.len() as int) =~= patterns@);
    r
}

/// Compiles the pattern and parses the records of each of `raw`, in order;
/// the first pattern or record that is rejected rejects them all.
fn load_header_lists(raw: &Vec<(String, Vec<String>)>, env: &Environment) -> (r: Result<
    Vec<(HashedRegex, Vec<HttpHeader>)>,
    ConfigError,
>)
    ensures
        r is Ok == forall|i: int|
            0 <= i < raw.len() ==> regex_compiles((#[trigger] raw@[i]).0@) && all_parse(
                raw@[i].1@,
                env@,
            ),
        match r {
            Ok(lists) => header_lists_from(lists@, raw@, env@),
            Err(ConfigError::Pattern(e)) => exists|i: int|
                0 <= i < raw.len() && e.pattern@ == (#[trigger] raw@[i]).0@ && !regex_compiles(
                    raw@[i].0@,
                ),
            Err(ConfigError::Header(e)) => exists|i: int, j: int|
                0 <= i < raw.len() && 0 <= j < raw@[i].1.len() && parse_outcome(Err(e))
                    == parse_record((#[trigger] raw@[i].1@[j])@, env@) && parse_record(
                    raw@[i].1@[j]@,
                    env@,
                ) is Err,
        },
{
    let mut lists: Vec<(HashedRegex, Vec<HttpHeader>)> = Vec::new();
    for i in 0..raw.len()
        invariant
            header_lists_from(lists@, raw@.take(i as int), env@),
            forall|k: int|
                0 <= k < i ==> regex_compiles((#[trigger] raw@[k]).0@) && all_parse(
                    raw@[k].1@,
                    env@,
                ),
    {
        let entry = &raw[i];
        let pattern = match HashedRegex::new(entry.0.as_str()) {
            Ok(p) => p,
            Err(e) => {
                return Err(ConfigError::Pattern(e));
            },
        };
        let headers = match parse_headers(&entry.1, env) {
            Ok(hs) => hs,
            Err(e) => {
                proof {
                    let j = choose|j: int|
                        0 <= j < entry.1.len() && all_parse(entry.1@.take(j), env@)
                            && parse_outcome(Err(e)) == parse_record(
                            #[trigger] entry.1@[j]@,
                            env@,
                        );
                    assert(parse_outcome(Err(e)) == parse_record(raw@[i as int].1@[j]@, env@));
                }
                return Err(ConfigError::Header(e));
            },
        };
        lists.push((pattern, headers));
        assert(raw@.take(i + 1)[i as int] == raw@[i as int]);
        proof {
            assert(parsed_from(headers@, raw@[i as int].1@, env@));
            assert forall|j: int| 0 <= j < raw@[i as int].1.len() implies (#[trigger] parse_record(
                raw@[i as int].1@[j]@,
                env@,
            )) is Ok by {
                assert(parse_outcome(Ok(headers@[j])) == parse_record(raw@[i as int].1@[j]@, env@));
            }
        }
    }
    assert(raw@.take(raw.len() as int) =~= raw@);
    Ok(lists)
}

impl Config {
    /// The options as they are written to a configuration file: every option
    /// present, patterns as written, and each header as its name and literal
    /// value. No resolved header value is written.
    pub fn to_raw(&self) -> (r: RawConfig)
        ensures
            written_from(*self, r),
    {
        let mut lists: Vec<(String, Vec<String>)> = Vec::new();
        for i in 0..self.http_headers.len()
            invariant
                lists.len() == i,
                forall|k: int|
                    0 <= k < i ==> (#[trigger] lists@[k]).0@ == self.http_headers@[k].0.source()
                        && written_as(self.http_headers@[k].1@, lists@[k].1@),
        {
            let entry = &self.http_headers[i];
            lists.push((entry.0.as_str().to_owned(), header_records(&entry.1)));
        }
        RawConfig {
            follow_web_links: Some(self.follow_web_links),
            traverse_parent_directories: Some(self.traverse_parent_directories),
            exclude: Some(pattern_sources(&self.exclude)),
            user_agent: Some(self.user_agent.clone()),
            cache_timeout: Some(self.cache_timeout),
            warning_policy: Some(self.warning_policy),
            http_headers: Some(lists),
        }
    }

    /// Applies the default of each option that `raw` leaves out, compiles
    /// its patterns and parses its header records in `env`. Any pattern or
    /// record that is rejected rejects the whole configuration.
    pub fn from_raw(raw: RawConfig, env: &Environment) -> (r: Result<Config, ConfigError>)
        ensures
            r is Ok == raw_loads(raw, env@),
            match r {
                Ok(c) => loaded_from(c, raw, env@),
                Err(ConfigError::Pattern(e)) => !regex_compiles(e.pattern@) && ((exists|i: int|
                    0 <= i < raw_exclude(raw).len() && e.pattern@ == (
                    #[trigger] raw_exclude(raw)[i])@) || (exists|i: int|
                    0 <= i < raw_headers(raw).len() && e.pattern@ == (
                    #[trigger] raw_headers(raw)[i]).0@)),
                Err(ConfigError::Header(e)) => exists|i: int, j: int|
                    0 <= i < raw_headers(raw).len() && 0 <= j < raw_headers(raw)[i].1.len()
                        && parse_outcome(Err(e)) == parse_record(
                        (#[trigger] raw_headers(raw)[i].1@[j])@,
                        env@,
                    ) && parse_record(raw_headers(raw)[i].1@[j]@, env@) is Err,
            },
    {
        let exclude = match &raw.exclude {
            Some(sources) => match compile_patterns(sources) {
                Ok(ps) => ps,
                Err(e) => {
                    assert(raw_exclude(raw) == sources@);
                    return Err(ConfigError::Pattern(e));
                },
            },
            None => Vec::new(),
        };
        let http_headers = match &raw.http_headers {
            Some(lists) => match load_header_lists(lists, env) {
                Ok(ls) => ls,
                Err(e) => {
                    assert(raw_headers(raw) == lists@);
                    return Err(e);
                },
            },
            None => Vec::new(),
        };
        let user_agent = match &raw.user_agent {
            Some(s) => s.clone(),
            None => default_user_agent(),
        };
        let follow_web_links = match raw.follow_web_links {
            Some(b) => b,
            None => false,
        };
        let traverse_parent_directories = match raw.traverse_parent_directories {
            Some(b) => b,
            None => false,
        };
        let cache_timeout = match raw.cache_timeout {
            Some(t) => t,
            None => default_cache_timeout(),
        };
        let warning_policy = match raw.warning_policy {
            Some(p) => p,
            None => WarningPolicy::default(),
        };
        proof {
            assert(compiled_from(exclude@, raw_exclude(raw)));
            assert(header_lists_from(http_headers@, raw_headers(raw), env@));
        }
        Ok(
            Config {
                follow_web_links,
                traverse_parent_directories,
                exclude,
                user_agent,
                cache_timeout,
                warning_policy,
                http_headers,
            },
        )
    }

    /// Checks [`Config::exclude`] to see if the provided link should be
    /// skipped: whether some pattern there matches it.
    pub fn should_skip(&self, link: &str) -> (r: bool)
        ensures
            r == excluded(self.exclude@, link@),
    {
        let n = self.exclude.len();
        let mut i: usize = 0;
        while i < n
            invariant
                n == self.exclude.len(),
                i <= n,
                forall|k: int| 0 <= k < i ==> !regex_finds(#[trigger] self.exclude@[k].source(), link@),
            decreases n - i,
        {
            if self.exclude[i].is_match(link) {
                return true;
            }
            i = i + 1;
        }
        false
    }
}

impl Default for Config {
    fn default() -> (r: Config)
        ensures
            !r.follow_web_links,
            !r.traverse_parent_directories,
            r.exclude@.len() == 0,
            r.user_agent@ == DEFAULT_USER_AGENT@,
            r.cache_timeout == DEFAULT_CACHE_TIMEOUT,
            r.warning_policy == WarningPolicy::Warn,
            r.http_headers@.len() == 0,
    {
        Config {
            follow_web_links: false,
            traverse_parent_directories: false,
            exclude: Vec::new(),
            user_agent: default_user_agent(),
            http_headers: Vec::new(),
            warning_policy: WarningPolicy::Warn,
            cache_timeout: default_cache_timeout(),
        }
    }
}

} // verus!
