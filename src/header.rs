//! HTTP header records of the form `Name: Value`.

use vstd::prelude::*;
use vstd::string::StringExecFns;
use crate::environment::Environment;
use crate::interpolate::{expansion, interpolate_env, InterpolationError};
use crate::text::{chars_of, push_char, string_of_range};

verus! {

/// Why a header record was rejected.
#[derive(Clone, Debug, PartialEq, Eq)]
pub enum ParseError {
    /// The record holds no `": "`.
    MissingSeparator,
    /// The value refers to a variable that is not defined.
    Interpolation(InterpolationError),
}

/// Why a header record is rejected, as a mathematical value.
pub enum RecordFault {
    MissingSeparator,
    MissingVariable(Seq<char>),
}

/// `": "` starts at position `i` of `s`.
pub open spec fn is_separator_at(s: Seq<char>, i: int) -> bool {
    0 <= i && i + 1 < s.len() && s[i] == ':' && s[i + 1] == ' '
}

/// The first position at or after `i` where `": "` starts.
pub open spec fn separator_from(s: Seq<char>, i: int) -> Option<int>
    decreases s.len() - i,
{
    if i < 0 || i + 1 >= s.len() {
        None
    } else if is_separator_at(s, i) {
        Some(i)
    } else {
        separator_from(s, i + 1)
    }
}

/// The first position where `": "` starts in `s`.
pub open spec fn first_separator(s: Seq<char>) -> Option<int> {
    separator_from(s, 0)
}

/// The record that a header with this name and literal value is written as.
pub open spec fn record_of(name: Seq<char>, value: Seq<char>) -> Seq<char> {
    name + seq![':', ' '] + value
}

/// What parsing the record `s` in `env` gives: the name, the literal value
/// and the resolved value, or the fault.
pub open spec fn parse_record(s: Seq<char>, env: Map<Seq<char>, Seq<char>>) -> Result<
    (Seq<char>, Seq<char>, Seq<char>),
    RecordFault,
> {
    match first_separator(s) {
        None => Err(RecordFault::MissingSeparator),
        Some(i) => {
            let value = s.skip(i + 2);
            match expansion(value, env) {
                Ok(resolved) => Ok((s.take(i), value, resolved)),
                Err(name) => Err(RecordFault::MissingVariable(name)),
            }
        },
    }
}

/// If the first `": "` at or after `j` is at `i`, none starts in `[j, i)`.
proof fn lemma_no_separator_before(s: Seq<char>, j: int, i: int, k: int)
    requires
        0 <= j <= k < i,
        separator_from(s, j) == Some(i),
    ensures
        !is_separator_at(s, k),
    decreases k - j,
{
    if j < k {
        lemma_no_separator_before(s, j + 1, i, k);
    }
}

/// In `name + ": " + value`, where `name` holds no `": "`, the first `": "`
/// is the one after `name`.
proof fn lemma_separator_of_record(name: Seq<char>, value: Seq<char>, j: int)
    requires
        0 <= j <= name.len(),
        forall|k: int| j <= k < name.len() ==> !is_separator_at(name, k),
    ensures
        separator_from(record_of(name, value), j) == Some(name.len() as int),
    decreases name.len() - j,
{
    let u = record_of(name, value);
    if j < name.len() {
        assert(!is_separator_at(u, j)) by {
            if j + 1 < name.len() {
                assert(!is_separator_at(name, j));
            } else {
                assert(u[j + 1] == ':');
            }
        }
        lemma_separator_of_record(name, value, j + 1);
    } else {
        assert(u[j] == ':' && u[j + 1] == ' ');
    }
}

/// A record that parses is written back exactly as it was: its name,
/// `": "` and its literal value give the record itself, so what is written
/// holds nothing of the resolved value that was not in the record.
pub proof fn lemma_record_reproduced(s: Seq<char>, env: Map<Seq<char>, Seq<char>>)
    requires
        parse_record(s, env) is Ok,
    ensures
        record_of(parse_record(s, env)->Ok_0.0, parse_record(s, env)->Ok_0.1) == s,
{
    let i = first_separator(s)->Some_0;
    assert(s.take(i) + seq![':', ' '] + s.skip(i + 2) =~= s) by {
        assert(separator_from(s, 0) == Some(i));
        lemma_separator_found(s, 0);
    }
}

/// The position that `separator_from` gives holds a separator.
proof fn lemma_separator_found(s: Seq<char>, j: int)
    requires
        separator_from(s, j) is Some,
    ensures
        is_separator_at(s, separator_from(s, j)->Some_0),
        j <= separator_from(s, j)->Some_0,
    decreases s.len() - j,
{
    if !is_separator_at(s, j) {
        lemma_separator_found(s, j + 1);
    }
}

/// Writing a parsed header and parsing it again in the same environment
/// gives the same name, literal value and resolved value.
pub proof fn lemma_record_round_trip(s: Seq<char>, env: Map<Seq<char>, Seq<char>>)
    requires
        parse_record(s, env) is Ok,
    ensures
        parse_record(
            record_of(parse_record(s, env)->Ok_0.0, parse_record(s, env)->Ok_0.1),
            env,
        ) == parse_record(s, env),
{
    lemma_record_reproduced(s, env);
}

/// Any name free of `": "` and any literal value that expands in `env` make
/// a record that parses back to that name and value.
pub proof fn lemma_header_round_trip(
    name: Seq<char>,
    value: Seq<char>,
    env: Map<Seq<char>, Seq<char>>,
)
    requires
        forall|k: int| 0 <= k < name.len() ==> !is_separator_at(name, k),
        expansion(value, env) is Ok,
    ensures
        parse_record(record_of(name, value), env) == Ok::<
            (Seq<char>, Seq<char>, Seq<char>),
            RecordFault,
        >((name, value, expansion(value, env)->Ok_0)),
{
    let u = record_of(name, value);
    lemma_separator_of_record(name, value, 0);
    assert(u.take(name.len() as int) =~= name);
    assert(u.skip(name.len() + 2 as int) =~= value);
}

/// A header to send with requests: its name, its value as written (which may
/// refer to variables), and the value with those references expanded.
///
/// The expanded value may hold secrets, so it takes part in no comparison
/// and no serialisation; only [`HttpHeader::interpolated_value`] hands it out.
#[derive(Clone, Debug)]
pub struct HttpHeader {
    pub name: String,
    pub value: String,
    interpolated_value: String,
}

impl HttpHeader {
    /// Name, literal value and resolved value: the fields `name` and
    /// `value`, and the value with its variable references expanded.
    pub closed spec fn parts(&self) -> (Seq<char>, Seq<char>, Seq<char>) {
        (self.name@, self.value@, self.interpolated_value@)
    }

}

/// The result of a parse, as a mathematical value.
pub open spec fn parse_outcome(r: Result<HttpHeader, ParseError>) -> Result<
    (Seq<char>, Seq<char>, Seq<char>),
    RecordFault,
> {
    match r {
        Ok(h) => Ok(h.parts()),
        Err(ParseError::MissingSeparator) => Err(RecordFault::MissingSeparator),
        Err(ParseError::Interpolation(InterpolationError::MissingVariable(name))) => Err(
            RecordFault::MissingVariable(name@),
        ),
    }
}

impl PartialEq for HttpHeader {
    /// Headers are equal when their names and literal values are.
    fn eq(&self, other: &HttpHeader) -> (r: bool) {
        self.name == other.name && self.value == other.value
    }
}

impl vstd::std_specs::cmp::PartialEqSpecImpl for HttpHeader {
    open spec fn obeys_eq_spec() -> bool {
        true
    }

    open spec fn eq_spec(&self, other: &HttpHeader) -> bool {
        self.parts().0 == other.parts().0 && self.parts().1 == other.parts().1
    }
}

impl HttpHeader {
    /// Parses `s`, split at its first `": "` into the name and the literal
    /// value; the value is expanded in `env`.
    pub fn parse(s: &str, env: &Environment) -> (r: Result<HttpHeader, ParseError>)
        ensures
            parse_outcome(r) == parse_record(s@, env@),
    {
        let chars = chars_of(s);
        let n = chars.len();
        let mut i: usize = 0;
        while i < n
            invariant
                chars@ == s@,
                n == chars.len(),
                i <= n,
                separator_from(s@, 0) == separator_from(s@, i as int),
            decreases n - i,
        {
            if i + 1 < n && chars[i] == ':' && chars[i + 1] == ' ' {
                let name = string_of_range(&chars, 0, i);
                let value = string_of_range(&chars, i + 2, n);
                proof {
                    assert(name@ =~= s@.take(i as int));
                    assert(value@ =~= s@.skip(i + 2));
                }
                return match interpolate_env(value.as_str(), env) {
                    Ok(interpolated_value) => Ok(HttpHeader { name, value, interpolated_value }),
                    Err(e) => Err(ParseError::Interpolation(e)),
                };
            }
            i = i + 1;
        }
        Err(ParseError::MissingSeparator)
    }

    /// The record this header is written as: its name, `": "`, and its
    /// literal value. The resolved value takes no part.
    pub fn to_record(&self) -> (r: String)
        ensures
            r@ == record_of(self.parts().0, self.parts().1),
    {
        let mut r = self.name.clone();
        push_char(&mut r, ':');
        push_char(&mut r, ' ');
        r.append(self.value.as_str());
        proof {
            assert(self.name@.push(':').push(' ') =~= self.name@ + seq![':', ' ']);
        }
        r
    }

    /// The value with its variable references expanded, for the requests
    /// that are sent; never to be shown or stored.
    pub fn interpolated_value(&self) -> (r: &String)
        ensures
            r@ == self.parts().2,
    {
        &self.interpolated_value
    }
}

/// Every record of `records` parses in `env`.
pub open spec fn all_parse(records: Seq<String>, env: Map<Seq<char>, Seq<char>>) -> bool {
    forall|i: int| 0 <= i < records.len() ==> (#[trigger] parse_record(records[i]@, env)) is Ok
}

/// `headers` are what the records of `records` parse to in `env`, in order.
pub open spec fn parsed_from(
    headers: Seq<HttpHeader>,
    records: Seq<String>,
    env: Map<Seq<char>, Seq<char>>,
) -> bool {
    headers.len() == records.len() && forall|i: int|
        0 <= i < headers.len() ==> parse_outcome(Ok(#[trigger] headers[i])) == parse_record(
            records[i]@,
            env,
        )
}

/// A list of parsed headers is written back as the records it came from.
pub proof fn lemma_header_list_reproduced(
    headers: Seq<HttpHeader>,
    records: Seq<String>,
    env: Map<Seq<char>, Seq<char>>,
)
    requires
        parsed_from(headers, records, env),
    ensures
        forall|i: int|
            0 <= i < headers.len() ==> record_of(
                (#[trigger] headers[i]).parts().0,
                headers[i].parts().1,
            ) == records[i]@,
{
    assert forall|i: int| 0 <= i < headers.len() implies record_of(
        (#[trigger] headers[i]).parts().0,
        headers[i].parts().1,
    ) == records[i]@ by {
        assert(parse_outcome(Ok(headers[i])) == parse_record(records[i]@, env));
        lemma_record_reproduced(records[i]@, env);
    }
}

/// Parses each record of `records` in `env`, in order. The first record that
/// is rejected rejects the whole list.
pub fn parse_headers(records: &Vec<String>, env: &Environment) -> (r: Result<
    Vec<HttpHeader>,
    ParseError,
>)
    ensures
        r is Ok == all_parse(records@, env@),
        match r {
            Ok(hs) => parsed_from(hs@, records@, env@),
            Err(e) => exists|i: int|
                0 <= i < records.len() && all_parse(records@.take(i), env@) && parse_outcome(
                    Err(e),
                ) == parse_record(#[trigger] records@[i]@, env@),
        },
{
    let mut hs: Vec<HttpHeader> = Vec::new();
    let mut i: usize = 0;
    while i < records.len()
        invariant
            i <= records.len(),
            hs.len() == i,
            forall|k: int|
                0 <= k < i ==> parse_outcome(Ok(#[trigger] hs@[k])) == parse_record(
                    records@[k]@,
                    env@,
                ),
        decreases records.len() - i,
    {
        match HttpHeader::parse(records[i].as_str(), env) {
            Ok(h) => {
                hs.push(h);
            },
            Err(e) => {
                proof {
                    assert(all_parse(records@.take(i as int), env@)) by {
                        assert forall|k: int| 0 <= k < i implies (#[trigger] parse_record(
                            records@.take(i as int)[k]@,
                            env@,
                        )) is Ok by {
                            assert(parse_outcome(Ok(hs@[k])) == parse_record(records@[k]@, env@));
                        }
                    }
                }
                return Err(e);
            },
        }
        i = i + 1;
    }
    proof {
        assert forall|k: int| 0 <= k < records.len() implies (#[trigger] parse_record(
            records@[k]@,
            env@,
        )) is Ok by {
            assert(parse_outcome(Ok(hs@[k])) == parse_record(records@[k]@, env@));
        }
    }
    Ok(hs)
}

/// The records that `headers` are written as, in order.
pub fn header_records(headers: &Vec<HttpHeader>) -> (r: Vec<String>)
    ensures
        r.len() == headers.len(),
        forall|i: int|
            0 <= i < r.len() ==> (#[trigger] r@[i])@ == record_of(
                headers@[i].parts().0,
                headers@[i].parts().1,
            ),
{
    let mut r: Vec<String> = Vec::new();
    for i in 0..headers.len()
        invariant
            r.len() == i,
            forall|k: int|
                0 <= k < i ==> (#[trigger] r@[k])@ == record_of(
                    headers@[k].parts().0,
                    headers@[k].parts().1,
                ),
    {
        r.push(headers[i].to_record());
    }
    r
}

} // verus!
