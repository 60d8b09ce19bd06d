use mdbook_linkcheck::config::{default_cache_timeout, default_user_agent, DEFAULT_USER_AGENT};
use mdbook_linkcheck::hashed_regex::compile_patterns;
use mdbook_linkcheck::{
    Config, ConfigError, Environment, HashedRegex, HttpHeader, InterpolationError, ParseError,
    PatternError, RawConfig, WarningPolicy,
};

const TOKEN_VALUE: &str = "QWxhZGRpbjpPcGVuU2VzYW1l";

fn token_env() -> Environment {
    let mut env = Environment::new();
    env.set(String::from("TOKEN"), String::from(TOKEN_VALUE));
    env
}

fn header(record: &str, env: &Environment) -> HttpHeader {
    HttpHeader::parse(record, env).unwrap()
}

/// The options of a file that sets every one of them.
fn full_raw() -> RawConfig {
    RawConfig {
        follow_web_links: Some(true),
        traverse_parent_directories: Some(true),
        exclude: Some(vec![String::from(r"google\.com")]),
        user_agent: Some(String::from("Internet Explorer")),
        cache_timeout: Some(3600),
        warning_policy: Some(WarningPolicy::Error),
        http_headers: Some(vec![(
            String::from("https"),
            vec![
                String::from("Accept: html/text"),
                String::from("Authorization: Basic $TOKEN"),
            ],
        )]),
    }
}

fn empty_raw() -> RawConfig {
    RawConfig {
        follow_web_links: None,
        traverse_parent_directories: None,
        exclude: None,
        user_agent: None,
        cache_timeout: None,
        warning_policy: None,
        http_headers: None,
    }
}

fn with_exclude(patterns: &[&str]) -> Config {
    let mut c = Config::default();
    for p in patterns {
        c.exclude.push(HashedRegex::new(p).unwrap());
    }
    c
}

#[test]
fn deserialize_a_config() {
    let env = token_env();

    let should_be = Config {
        follow_web_links: true,
        warning_policy: WarningPolicy::Error,
        traverse_parent_directories: true,
        exclude: vec![HashedRegex::new(r"google\.com").unwrap()],
        user_agent: String::from("Internet Explorer"),
        http_headers: vec![(
            HashedRegex::new("https").unwrap(),
            vec![
                header("Accept: html/text", &env),
                header("Authorization: Basic $TOKEN", &env),
            ],
        )],
        cache_timeout: 3600,
    };

    let got = Config::from_raw(full_raw(), &env).unwrap();

    assert_eq!(got, should_be);
}

#[test]
fn round_trip_config() {
    let env = token_env();

    let deserialized = Config::from_raw(full_raw(), &env).unwrap();
    let reserialized = deserialized.to_raw();

    assert_eq!(reserialized, full_raw());
}

#[test]
fn interpolation() {
    let env = token_env();

    let got = HttpHeader::parse("Authorization: Basic $TOKEN", &env).unwrap();

    assert_eq!(got.name, "Authorization");
    assert_eq!(got.value, "Basic $TOKEN");
    assert_eq!(got.interpolated_value(), "Basic QWxhZGRpbjpPcGVuU2VzYW1l");
}

#[test]
fn should_skip_matching_links() {
    let c = with_exclude(&[r"google\.com", r"^https://internal\."]);
    assert!(c.should_skip("https://www.google.com/search"));
    assert!(c.should_skip("https://internal.example.org/"));
    assert!(!c.should_skip("https://example.org/"));
    assert!(!c.should_skip("https://googleXcom/"));
}

#[test]
fn no_exclusions_skip_nothing() {
    let c = Config::default();
    for link in ["", "https://google.com", "./local.md"] {
        assert!(!c.should_skip(link));
    }
}

#[test]
fn defaults() {
    let c = Config::default();
    assert!(!c.follow_web_links);
    assert!(!c.traverse_parent_directories);
    assert!(c.exclude.is_empty());
    assert_eq!(c.user_agent, DEFAULT_USER_AGENT);
    assert_eq!(c.user_agent, "mdbook-linkcheck-0.7.7");
    assert_eq!(c.cache_timeout, 43200);
    assert_eq!(c.warning_policy, WarningPolicy::Warn);
    assert!(c.http_headers.is_empty());
    assert_eq!(default_cache_timeout(), 12 * 60 * 60);
    assert_eq!(default_user_agent(), DEFAULT_USER_AGENT);
    assert_eq!(WarningPolicy::default(), WarningPolicy::Warn);
}

#[test]
fn missing_options_take_defaults() {
    let env = Environment::new();
    let c = Config::from_raw(empty_raw(), &env).unwrap();
    assert_eq!(c, Config::default());

    let mut raw = empty_raw();
    raw.follow_web_links = Some(true);
    let c = Config::from_raw(raw, &env).unwrap();
    assert!(c.follow_web_links);
    assert_eq!(c.cache_timeout, 43200);
    assert_eq!(c.user_agent, DEFAULT_USER_AGENT);
    assert_eq!(c.warning_policy, WarningPolicy::Warn);
}

#[test]
fn invalid_pattern_is_rejected() {
    let env = token_env();
    assert_eq!(
        HashedRegex::new("foo(bar").unwrap_err(),
        PatternError { pattern: String::from("foo(bar") }
    );
    let mut raw = full_raw();
    raw.exclude = Some(vec![String::from("ok"), String::from("[unclosed")]);
    assert_eq!(
        Config::from_raw(raw, &env),
        Err(ConfigError::Pattern(PatternError { pattern: String::from("[unclosed") }))
    );
    let mut raw = full_raw();
    raw.http_headers = Some(vec![(String::from("(("), vec![])]);
    assert_eq!(
        Config::from_raw(raw, &env),
        Err(ConfigError::Pattern(PatternError { pattern: String::from("((") }))
    );
    let sources = vec![String::from("a+"), String::from("b?")];
    let ps = compile_patterns(&sources).unwrap();
    assert_eq!(ps[0].as_str(), "a+");
    assert_eq!(ps[1].as_str(), "b?");
}

#[test]
fn bad_header_fails_whole_config() {
    let env = Environment::new();
    assert_eq!(
        Config::from_raw(full_raw(), &env),
        Err(ConfigError::Header(ParseError::Interpolation(
            InterpolationError::MissingVariable(String::from("TOKEN"))
        )))
    );
    let mut raw = full_raw();
    raw.http_headers = Some(vec![(String::from("https"), vec![String::from("BadHeader")])]);
    assert_eq!(
        Config::from_raw(raw, &env),
        Err(ConfigError::Header(ParseError::MissingSeparator))
    );
}

#[test]
fn loaded_headers_keep_resolved_values() {
    let env = token_env();
    let c = Config::from_raw(full_raw(), &env).unwrap();
    let (pattern, headers) = &c.http_headers[0];
    assert_eq!(pattern.as_str(), "https");
    assert_eq!(headers[1].interpolated_value(), "Basic QWxhZGRpbjpPcGVuU2VzYW1l");
    let raw = c.to_raw();
    let records = &raw.http_headers.as_ref().unwrap()[0].1;
    assert!(records.iter().all(|r| !r.contains("QWxhZGRpbjpPcGVuU2VzYW1l")));
    let again = Config::from_raw(raw, &env).unwrap();
    assert_eq!(again, c);
    assert_eq!(again.http_headers[0].1[1].interpolated_value(), headers[1].interpolated_value());
}

#[test]
fn patterns_compare_by_source() {
    assert_eq!(HashedRegex::new("a.c").unwrap(), HashedRegex::new("a.c").unwrap());
    assert_ne!(HashedRegex::new("a.c").unwrap(), HashedRegex::new("a\\.c").unwrap());
    let p = HashedRegex::new("x+").unwrap();
    let q = p.clone();
    assert_eq!(p, q);
    assert_eq!(q.as_str(), "x+");
}
