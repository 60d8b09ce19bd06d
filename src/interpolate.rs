//! Expansion of `$VAR` references in a header value, with backslash escapes.

use vstd::prelude::*;
use vstd::string::StringExecFns;
use crate::environment::Environment;
use crate::text::{chars_of, push_char, string_of_range};

verus! {

/// Why a value could not be expanded.
#[derive(Clone, Debug, PartialEq, Eq)]
pub enum InterpolationError {
    /// The variable of this name is not defined.
    MissingVariable(String),
}

/// A character that may appear in a variable name.
pub open spec fn is_ident_char(c: char) -> bool {
    ('a' <= c && c <= 'z') || ('A' <= c && c <= 'Z') || ('0' <= c && c <= '9') || c == '_'
}

/// The length of the run of name characters that starts `s`.
pub open spec fn ident_len(s: Seq<char>) -> nat
    decreases s.len(),
{
    if s.len() > 0 && is_ident_char(s[0]) {
        1 + ident_len(s.drop_first())
    } else {
        0
    }
}

/// `r` with `p` put in front of its output; an error is kept as it is.
pub open spec fn prefixed(p: Seq<char>, r: Result<Seq<char>, Seq<char>>) -> Result<
    Seq<char>,
    Seq<char>,
> {
    match r {
        Ok(t) => Ok(p + t),
        Err(name) => Err(name),
    }
}

/// The expansion of `s` in `env`: `Ok` with the output, or `Err` with the
/// name of the first variable that `env` does not define.
///
/// A backslash before `$` or `\` yields that character alone; before any
/// other character it is kept; at the end it is kept. `$` followed by the
/// longest run of name characters (possibly empty) yields the variable's
/// value. Every other character is copied.
pub open spec fn expansion(s: Seq<char>, env: Map<Seq<char>, Seq<char>>) -> Result<
    Seq<char>,
    Seq<char>,
>
    decreases s.len()
    via expansion_decreases

{
    if s.len() == 0 {
        Ok(Seq::empty())
    } else if s[0] == '\\' {
        if s.len() == 1 {
            Ok(seq!['\\'])
        } else if s[1] == '$' || s[1] == '\\' {
            prefixed(seq![s[1]], expansion(s.skip(2), env))
        } else {
            prefixed(seq!['\\', s[1]], expansion(s.skip(2), env))
        }
    } else if s[0] == '$' {
        let n = ident_len(s.drop_first()) as int;
        let name = s.subrange(1, 1 + n);
        if env.contains_key(name) {
            prefixed(env[name], expansion(s.skip(1 + n), env))
        } else {
            Err(name)
        }
    } else {
        prefixed(seq![s[0]], expansion(s.drop_first(), env))
    }
}

/// A run of name characters is no longer than the text it starts.
pub proof fn lemma_ident_len_bound(s: Seq<char>)
    ensures
        ident_len(s) <= s.len(),
    decreases s.len(),
{
    if s.len() > 0 && is_ident_char(s[0]) {
        lemma_ident_len_bound(s.drop_first());
    }
}

#[via_fn]
proof fn expansion_decreases(s: Seq<char>, env: Map<Seq<char>, Seq<char>>) {
    if s.len() > 0 {
        lemma_ident_len_bound(s.drop_first());
    }
}

fn is_ident(c: char) -> (r: bool)
    ensures
        r == is_ident_char(c),
{
    ('a' <= c && c <= 'z') || ('A' <= c && c <= 'Z') || ('0' <= c && c <= '9') || c == '_'
}

proof fn lemma_prefixed_assoc(p: Seq<char>, q: Seq<char>, r: Result<Seq<char>, Seq<char>>)
    ensures
        prefixed(p, prefixed(q, r)) == prefixed(p + q, r),
{
    if let Ok(t) = r {
        assert(p + (q + t) =~= (p + q) + t);
    }
}

/// A run of name characters over `s[from..end]` ended by a non-name
/// character or by the end of `s` is the longest one.
proof fn lemma_ident_run(s: Seq<char>, from: int, end: int)
    requires
        0 <= from <= end <= s.len(),
        forall|k: int| from <= k < end ==> is_ident_char(s[k]),
        end == s.len() || !is_ident_char(s[end]),
    ensures
        ident_len(s.skip(from)) == end - from,
    decreases end - from,
{
    if from < end {
        assert(s.skip(from).drop_first() =~= s.skip(from + 1));
        lemma_ident_run(s, from + 1, end);
    }
}

/// No `$` and no backslash in `s`.
pub open spec fn is_plain(s: Seq<char>) -> bool {
    forall|k: int| 0 <= k < s.len() ==> s[k] != '$' && s[k] != '\\'
}

/// Text without `$` or backslash expands to itself, whatever the environment.
pub proof fn lemma_plain_text_unchanged(s: Seq<char>, env: Map<Seq<char>, Seq<char>>)
    requires
        is_plain(s),
    ensures
        expansion(s, env) == Ok::<Seq<char>, Seq<char>>(s),
    decreases s.len(),
{
    if s.len() == 0 {
        assert(s =~= Seq::<char>::empty());
    } else {
        let t = s.drop_first();
        assert(is_plain(t));
        lemma_plain_text_unchanged(t, env);
        assert(seq![s[0]] + t =~= s);
    }
}

/// A lone backslash at the end of plain text is kept, and is no error.
pub proof fn lemma_trailing_backslash_kept(s: Seq<char>, env: Map<Seq<char>, Seq<char>>)
    requires
        is_plain(s),
    ensures
        expansion(s.push('\\'), env) == Ok::<Seq<char>, Seq<char>>(s.push('\\')),
    decreases s.len(),
{
    let u = s.push('\\');
    if s.len() == 0 {
        assert(u =~= seq!['\\']);
    } else {
        let t = s.drop_first();
        assert(is_plain(t));
        lemma_trailing_backslash_kept(t, env);
        assert(u.drop_first() =~= t.push('\\'));
        assert(seq![s[0]] + t.push('\\') =~= u);
    }
}

/// A backslash before `$` yields `$` itself: what follows is not read as a
/// variable name, and expands as it would on its own.
pub proof fn lemma_escaped_dollar(t: Seq<char>, env: Map<Seq<char>, Seq<char>>)
    ensures
        expansion(seq!['\\', '$'] + t, env) == prefixed(seq!['$'], expansion(t, env)),
{
    assert((seq!['\\', '$'] + t).skip(2) =~= t);
}

/// `$` followed by a name that the environment does not define fails with
/// that name, whatever follows the name.
pub proof fn lemma_missing_variable(
    name: Seq<char>,
    t: Seq<char>,
    env: Map<Seq<char>, Seq<char>>,
)
    requires
        forall|k: int| 0 <= k < name.len() ==> is_ident_char(name[k]),
        t.len() == 0 || !is_ident_char(t[0]),
        !env.contains_key(name),
    ensures
        expansion(seq!['$'] + name + t, env) == Err::<Seq<char>, Seq<char>>(name),
{
    let s = seq!['$'] + name + t;
    lemma_ident_run(s, 1, 1 + name.len() as int);
    assert(s.skip(1) =~= s.drop_first());
    assert(s.subrange(1, 1 + name.len() as int) =~= name);
}

/// Expands the `$VAR` references of `value` against `env`.
pub fn interpolate_env(value: &str, env: &Environment) -> (r: Result<String, InterpolationError>)
    ensures
        match r {
            Ok(out) => expansion(value@, env@) == Ok::<Seq<char>, Seq<char>>(out@),
            Err(InterpolationError::MissingVariable(name)) => expansion(value@, env@) == Err::<
                Seq<char>,
                Seq<char>,
            >(name@),
        },
{
    let chars = chars_of(value);
    let ghost s = chars@;
    let n = chars.len();
    let mut res = String::new();
    let mut i: usize = 0;
    proof {
        assert(s.skip(0) =~= s);
        assert(res@ + s =~= s);
        if let Ok(t) = expansion(s, env@) {
            assert(res@ + t =~= t);
        }
    }
    while i < n
        invariant
            n == chars.len(),
            s == chars@,
            s == value@,
            i <= n,
            expansion(s, env@) == prefixed(res@, expansion(s.skip(i as int), env@)),
        decreases n - i,
    {
        let ghost rest = s.skip(i as int);
        let ghost before = res@;
        let c = chars[i];
        assert(rest.len() > 0 && rest[0] == c);
        if c == '\\' {
            if i + 1 == n {
                push_char(&mut res, '\\');
                i = i + 1;
                proof {
                    assert(s.skip(i as int) =~= Seq::<char>::empty());
                    assert(res@ + Seq::<char>::empty() =~= before + seq!['\\']);
                }
            } else {
                let d = chars[i + 1];
                assert(rest.len() > 1 && rest[1] == d);
                if d == '$' || d == '\\' {
                    push_char(&mut res, d);
                    proof {
                        lemma_prefixed_assoc(before, seq![d], expansion(rest.skip(2), env@));
                        assert(res@ =~= before + seq![d]);
                    }
                } else {
                    push_char(&mut res, '\\');
                    push_char(&mut res, d);
                    proof {
                        lemma_prefixed_assoc(before, seq!['\\', d], expansion(rest.skip(2), env@));
                        assert(before.push('\\').push(d) =~= before + seq!['\\', d]);
                    }
                }
                i = i + 2;
                proof {
                    assert(rest.skip(2) =~= s.skip(i as int));
                }
            }
        } else if c == '$' {
            let start = i + 1;
            let mut end = start;
            while end < n && is_ident(chars[end])
                invariant
                    start <= end <= n,
                    n == chars.len(),
                    forall|k: int| start <= k < end ==> is_ident_char(chars@[k]),
                decreases n - end,
            {
                end = end + 1;
            }
            let name = string_of_range(&chars, start, end);
            proof {
                lemma_ident_run(s, start as int, end as int);
                assert(rest.drop_first() =~= s.skip(start as int));
                assert(rest.subrange(1, 1 + (end - start)) =~= name@);
                assert(rest.skip(1 + (end - start)) =~= s.skip(end as int));
            }
            match env.get(&name) {
                Some(found) => {
                    res.append(found.as_str());
                    proof {
                        lemma_prefixed_assoc(before, found@, expansion(s.skip(end as int), env@));
                        assert(rest[0] == '$');
                    }
                    i = end;
                },
                None => {
                    return Err(InterpolationError::MissingVariable(name));
                },
            }
        } else {
            push_char(&mut res, c);
            proof {
                lemma_prefixed_assoc(before, seq![c], expansion(rest.drop_first(), env@));
                assert(res@ =~= before + seq![c]);
                assert(rest.drop_first() =~= s.skip(i + 1));
            }
            i = i + 1;
        }
    }
    proof {
        assert(s.skip(i as int) =~= Seq::<char>::empty());
        assert(res@ + Seq::<char>::empty() =~= res@);
    }
    Ok(res)
}

} // verus!
