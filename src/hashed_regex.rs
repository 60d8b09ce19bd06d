//! A compiled regular expression that compares and hashes by its source text.

use vstd::prelude::*;

verus! {

#[verifier::external_type_specification]
#[verifier::external_body]
pub struct ExRegex(regex::Regex);

#[verifier::external_type_specification]
#[verifier::external_body]
pub struct ExRegexError(regex::Error);

/// Relies on `regex::Regex`'s `Clone`, which copies the compiled regex (the
/// clone of a `HashedRegex` carries it); nothing is claimed of the copy.
pub assume_specification[ <regex::Regex as Clone>::clone ](r: &regex::Regex) -> regex::Regex;

/// Whether `regex` compiles the pattern `pattern` (with its default limits).
pub uninterp spec fn regex_compiles(pattern: Seq<char>) -> bool;

/// Whether the regex compiled from `pattern` matches somewhere in `text`.
pub uninterp spec fn regex_finds(pattern: Seq<char>, text: Seq<char>) -> bool;

/// Relies on `regex::Regex::new`: it succeeds or fails according to the
/// pattern alone.
#[verifier::external_body]
fn compile(pattern: &str) -> (r: Result<regex::Regex, regex::Error>)
    ensures
        r is Ok == regex_compiles(pattern@),
{
    regex::Regex::new(pattern)
}

/// A pattern that is not a valid regular expression.
#[derive(Clone, Debug, PartialEq, Eq)]
pub struct PatternError {
    /// The pattern as written.
    pub pattern: String,
}

/// A regular expression kept with the text it was compiled from.
///
/// `re` is always compiled from `string`: `new` is the only way to make one.
#[derive(Clone, Debug)]
pub struct HashedRegex {
    string: String,
    re: regex::Regex,
}

impl HashedRegex {
    /// The pattern as written.
    pub closed spec fn source(&self) -> Seq<char> {
        self.string@
    }

    /// Compiles `s`.
    pub fn new(s: &str) -> (r: Result<HashedRegex, PatternError>)
        ensures
            r is Ok == regex_compiles(s@),
            match r {
                Ok(p) => p.source() == s@,
                Err(e) => e.pattern@ == s@,
            },
    {
        let string = s.to_owned();
        match compile(s) {
            Ok(re) => Ok(HashedRegex { string, re }),
            Err(_) => Err(PatternError { pattern: string }),
        }
    }

    /// The pattern as written.
    pub fn as_str(&self) -> (r: &str)
        ensures
            r@ == self.source(),
    {
        self.string.as_str()
    }

    /// Relies on `regex::Regex::is_match`: whether the regex matches
    /// somewhere in `text` depends on its pattern and `text` alone. `re` is
    /// the regex compiled from `string`.
    #[verifier::external_body]
    pub(crate) fn is_match(&self, text: &str) -> (r: bool)
        ensures
            r == regex_finds(self.source(), text@),
    {
        self.re.is_match(text)
    }
}

/// Compiles each pattern of `sources`, in order; the first one that does not
/// compile rejects the list.
pub fn compile_patterns(sources: &Vec<String>) -> (r: Result<Vec<HashedRegex>, PatternError>)
    ensures
        r is Ok == forall|i: int| 0 <= i < sources.len() ==> regex_compiles(#[trigger] sources@[i]@),
        match r {
            Ok(ps) => compiled_from(ps@, sources@),
            Err(e) => exists|i: int|
                0 <= i < sources.len() && e.pattern@ == (#[trigger] sources@[i])@ && !regex_compiles(
                    sources@[i]@,
                ),
        },
{
    let mut ps: Vec<HashedRegex> = Vec::new();
    for i in 0..sources.len()
        invariant
            compiled_from(ps@, sources@.take(i as int)),
            forall|k: int| 0 <= k < i ==> regex_compiles(#[trigger] sources@[k]@),
    {
        match HashedRegex::new(sources[i].as_str()) {
            Ok(p) => {
                ps.push(p);
                assert(sources@.take(i + 1)[i as int] == sources@[i as int]);
            },
            Err(e) => {
                return Err(e);
            },
        }
    }
    assert(sources@.take(sources.len() as int) =~= sources@);
    Ok(ps)
}

/// `patterns` are compiled from `sources`, in order.
pub open spec fn compiled_from(patterns: Seq<HashedRegex>, sources: Seq<String>) -> bool {
    patterns.len() == sources.len() && forall|i: int|
        0 <= i < patterns.len() ==> (#[trigger] patterns[i]).source() == sources[i]@
}

impl PartialEq for HashedRegex {
    /// Two patterns are equal when they are written the same.
    fn eq(&self, other: &HashedRegex) -> (r: bool) {
        self.string == other.string
    }
}

impl vstd::std_specs::cmp::PartialEqSpecImpl for HashedRegex {
    open spec fn obeys_eq_spec() -> bool {
        true
    }

    open spec fn eq_spec(&self, other: &HashedRegex) -> bool {
        self.source() == other.source()
    }
}

} // verus!
