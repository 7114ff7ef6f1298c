//! What the public parsers return, stated over the grammar: the value read and
//! the rest of the input, or the error of a parser that did not match.
use vstd::prelude::*;

use crate::error::{ErrorKind, PesError, PesNomError};
use crate::parser::grammar::{consuming, halt_within, start, Halt};
use crate::text::multispace_end;
use crate::parser::scan::skip_multispace;

verus! {

/// The grammar result is a number or a bound that does not fit: the parsers are
/// not called on such inputs.
pub open spec fn overflows<T>(g: Result<T, Halt>) -> bool {
    g == Err::<T, Halt>(Halt::Overflow)
}

/// The message of a failed consuming parser: its name, a space and the input.
pub open spec fn failure_text(name: Seq<char>, input: Seq<char>) -> Seq<char> {
    name + seq![' '] + input
}

/// The error of a non-consuming parser whose grammar failed at `p` on `s`: the
/// rest of `s` from `p`, and what was expected there.
pub open spec fn nom_error(e: PesNomError, s: Seq<char>, h: Halt) -> bool {
    match h {
        Halt::Fail(p, k) => e matches PesNomError::Nom(m, k2) && m@ == s.subrange(p as int, s.len() as int)
            && k2 == k,
        Halt::Overflow => true,
    }
}

/// A non-consuming parser returned what the grammar reads from the start of `s`
/// with the rest of `s`, or, where the grammar does not match, the error that
/// carries the rest of `s` where it failed.
pub open spec fn reads<T>(r: Result<(&str, T), PesNomError>, s: Seq<char>, g: Result<(T, int), Halt>) -> bool {
    match g {
        Ok((v, e)) => r matches Ok((rest, v2)) && v2 == v && rest@ == s.subrange(e, s.len() as int),
        Err(h) => r matches Err(e) && nom_error(e, s, h),
    }
}

/// As `reads`, for a value that comes with a package name read before it.
pub open spec fn reads_named<T>(
    r: Result<(&str, (&str, T)), PesNomError>,
    s: Seq<char>,
    g: Result<((int, T), int), Halt>,
) -> bool {
    match g {
        Ok(((w, v), e)) => r matches Ok((rest, (name, v2))) && name@ == s.subrange(0, w) && v2 == v
            && rest@ == s.subrange(e, s.len() as int),
        Err(h) => r matches Err(e) && nom_error(e, s, h),
    }
}

/// A consuming parser named `name` returned the value that the grammar reads from
/// `s` after its leading white space, where nothing but white space follows it;
/// otherwise the parsing failure that names the parser and the input.
pub open spec fn reads_all<T>(r: Result<T, PesError>, s: Seq<char>, g: Result<T, Halt>, name: Seq<char>) -> bool {
    match g {
        Ok(v) => r == Ok::<T, PesError>(v),
        Err(_) => r matches Err(PesError::ParsingFailure(m)) && m@ == failure_text(name, s),
    }
}

/// As `reads_all`, for a value that comes with a package name read before it.
pub open spec fn reads_all_named<T>(
    r: Result<(&str, T), PesError>,
    s: Seq<char>,
    g: Result<(int, T), Halt>,
    name: Seq<char>,
) -> bool {
    match g {
        Ok((w, v)) => r matches Ok((n, v2)) && n@ == s.subrange(start(s), w) && v2 == v,
        Err(_) => r matches Err(PesError::ParsingFailure(m)) && m@ == failure_text(name, s),
    }
}

/// The error of a non-consuming parser that failed on `input` at `p`, where
/// `kind` was expected.
pub fn no_match(input: &str, p: usize, kind: ErrorKind) -> (e: PesNomError)
    requires
        p <= input@.len(),
    ensures
        nom_error(e, input@, Halt::Fail(p, kind)),
{
    let n = input.unicode_len();
    PesNomError::Nom(String::from_str(input.substring_char(p, n)), kind)
}

/// The error of a non-consuming parser on `input` for a grammar failure.
fn halt_error(input: &str, h: Halt) -> (e: PesNomError)
    requires
        halt_within(Err::<(), Halt>(h), input@.len() as int),
    ensures
        nom_error(e, input@, h),
{
    match h {
        Halt::Fail(p, k) => no_match(input, p, k),
        Halt::Overflow => PesNomError::PesError(String::new()),
    }
}

/// The text `format!("{:?}", s)` gives for a string (quoted, with escapes).
pub uninterp spec fn str_debug(s: Seq<char>) -> Seq<char>;

/// `format!("{:?}", s)`: the string quoted, with its special characters escaped.
#[verifier::external_body]
fn debug_text(s: &str) -> (r: String)
    ensures
        r@ == str_debug(s@),
{
    format!("{:?}", s)
}

/// The debug form of the error of a grammar failure at `p` on `s`:
/// `Nom("<rest of s from p>", <kind>)`.
pub open spec fn nom_debug(s: Seq<char>, p: int, k: ErrorKind) -> Seq<char> {
    seq!['N', 'o', 'm', '('] + str_debug(s.subrange(p, s.len() as int)) + seq![',', ' '] + k.name()
        + seq![')']
}

/// The message of a grammar failure on `s`, as the debug form of the failed
/// read: `Error(Nom("<rest of s where it failed>", <kind>))`.
pub open spec fn nom_failure(s: Seq<char>, h: Halt) -> Seq<char> {
    match h {
        Halt::Fail(p, k) => seq!['E', 'r', 'r', 'o', 'r', '('] + nom_debug(s, p as int, k) + seq![')'],
        Halt::Overflow => Seq::empty(),
    }
}

/// `buf` followed by `nom_debug(s, p, k)`.
pub fn push_nom_debug(buf: &mut String, s: &str, p: usize, k: ErrorKind)
    requires
        p <= s@.len(),
    ensures
        final(buf)@ == old(buf)@ + nom_debug(s@, p as int, k),
{
    proof {
        reveal_strlit("Nom(");
        reveal_strlit(", ");
        reveal_strlit(")");
    }
    let n = s.unicode_len();
    let ghost b0 = buf@;
    buf.append("Nom(");
    let d = debug_text(s.substring_char(p, n));
    buf.append(d.as_str());
    buf.append(", ");
    buf.append(k.name_text());
    buf.append(")");
    proof {
        assert(buf@ =~= b0 + nom_debug(s@, p as int, k));
    }
}

/// The message of a consuming parser whose grammar failed, `prefix` followed by
/// the debug form of the failed read (see `nom_failure`).
pub open spec fn reads_all_nom<T>(r: Result<(&str, T), PesError>, s: Seq<char>, g: Result<(int, T), Halt>, prefix: Seq<char>) -> bool {
    match g {
        Ok((w, v)) => r matches Ok((n, v2)) && n@ == s.subrange(start(s), w) && v2 == v,
        Err(h) => r matches Err(PesError::ParsingFailure(m)) && m@ == prefix + nom_failure(s, h),
    }
}

/// The message `prefix` + `nom_failure(s, h)`.
fn nom_failure_text(prefix: &str, s: &str, h: Halt) -> (m: String)
    requires
        halt_within(Err::<(), Halt>(h), s@.len() as int),
    ensures
        m@ == prefix@ + nom_failure(s@, h),
{
    proof {
        reveal_strlit("Error(");
        reveal_strlit(")");
    }
    match h {
        Halt::Fail(p, k) => {
            let mut m = String::from_str(prefix);
            m.append("Error(");
            push_nom_debug(&mut m, s, p, k);
            m.append(")");
            proof {
                assert(m@ =~= prefix@ + nom_failure(s@, h));
            }
            m
        },
        Halt::Overflow => {
            proof {
                assert(prefix@ + Seq::<char>::empty() =~= prefix@);
            }
            String::from_str(prefix)
        },
    }
}

/// The error of the consuming parser `name` that cannot read `input`.
pub fn parsing_failure(name: &str, input: &str) -> (e: PesError)
    ensures
        e matches PesError::ParsingFailure(m) && m@ == failure_text(name@, input@),
{
    proof {
        reveal_strlit(" ");
    }
    let mut m = String::from_str(name);
    m.append(" ");
    m.append(input);
    PesError::ParsingFailure(m)
}

/// The answer of a non-consuming parser on `s` (of `n` characters) from what the
/// reader returned.
pub fn answer<'a, T>(s: &'a str, n: usize, r: Result<(T, usize), Halt>) -> (out: Result<(&'a str, T), PesNomError>)
    requires
        n == s@.len(),
        r matches Ok((_, e)) ==> e <= n,
        halt_within(r, n as int),
    ensures
        match r {
            Ok((v, e)) => out matches Ok((rest, v2)) && v2 == v && rest@ == s@.subrange(e as int, n as int),
            Err(h) => out matches Err(e) && nom_error(e, s@, h),
        },
{
    match r {
        Ok((v, e)) => Ok((s.substring_char(e, n), v)),
        Err(h) => Err(halt_error(s, h)),
    }
}

/// The answer of a non-consuming parser of a named value on `s`.
pub fn answer_named<'a, T>(s: &'a str, n: usize, r: Result<(usize, T, usize), Halt>) -> (out: Result<(&'a str, (&'a str, T)), PesNomError>)
    requires
        n == s@.len(),
        r matches Ok((w, _, e)) ==> w <= e <= n,
        halt_within(r, n as int),
    ensures
        match r {
            Ok((w, v, e)) => out matches Ok((rest, (name, v2))) && name@ == s@.subrange(0, w as int)
                && v2 == v && rest@ == s@.subrange(e as int, n as int),
            Err(h) => out matches Err(e) && nom_error(e, s@, h),
        },
{
    match r {
        Ok((w, v, e)) => Ok((s.substring_char(e, n), (s.substring_char(0, w), v))),
        Err(h) => Err(halt_error(s, h)),
    }
}

/// The answer of the consuming parser `name` on `s` (whose characters are `c`),
/// from what the reader returned when started after the leading white space.
pub fn answer_all<T>(name: &str, s: &str, c: &Vec<char>, r: Result<(T, usize), Halt>) -> (out: Result<T, PesError>)
    requires
        c@ == s@,
        r matches Ok((_, e)) ==> e <= c@.len(),
    ensures
        match r {
            Ok((v, e)) => if multispace_end(s@, e as int) == s@.len() {
                out == Ok::<T, PesError>(v)
            } else {
                out matches Err(PesError::ParsingFailure(m)) && m@ == failure_text(name@, s@)
            },
            Err(_) => out matches Err(PesError::ParsingFailure(m)) && m@ == failure_text(name@, s@),
        },
{
    match r {
        Ok((v, e)) => {
            if skip_multispace(c, e) == c.len() {
                Ok(v)
            } else {
                Err(parsing_failure(name, s))
            }
        },
        Err(_) => Err(parsing_failure(name, s)),
    }
}

/// The answer of the consuming parser `name` of a named value on `s`, started at
/// `i`, after the leading white space.
pub fn answer_all_named<'a, T>(name: &str, s: &'a str, c: &Vec<char>, i: usize, r: Result<(usize, T, usize), Halt>) -> (out: Result<(&'a str, T), PesError>)
    requires
        c@ == s@,
        r matches Ok((w, _, e)) ==> i <= w <= e <= c@.len(),
    ensures
        match r {
            Ok((w, v, e)) => if multispace_end(s@, e as int) == s@.len() {
                out matches Ok((n, v2)) && n@ == s@.subrange(i as int, w as int) && v2 == v
            } else {
                out matches Err(PesError::ParsingFailure(m)) && m@ == failure_text(name@, s@)
            },
            Err(_) => out matches Err(PesError::ParsingFailure(m)) && m@ == failure_text(name@, s@),
        },
{
    match r {
        Ok((w, v, e)) => {
            if skip_multispace(c, e) == c.len() {
                Ok((s.substring_char(i, w), v))
            } else {
                Err(parsing_failure(name, s))
            }
        },
        Err(_) => Err(parsing_failure(name, s)),
    }
}

/// The answer of a consuming parser of a named value on `s`, started at `i`,
/// after the leading white space, whose failure message is `prefix` followed by
/// the debug form of the failed read.
pub fn answer_all_named_nom<'a, T>(prefix: &str, s: &'a str, c: &Vec<char>, i: usize, r: Result<(usize, T, usize), Halt>) -> (out: Result<(&'a str, T), PesError>)
    requires
        c@ == s@,
        r matches Ok((w, _, e)) ==> i <= w <= e <= c@.len(),
        halt_within(r, c@.len() as int),
    ensures
        match r {
            Ok((w, v, e)) => if multispace_end(s@, e as int) == s@.len() {
                out matches Ok((n, v2)) && n@ == s@.subrange(i as int, w as int) && v2 == v
            } else {
                out matches Err(PesError::ParsingFailure(m)) && m@ == prefix@ + nom_failure(
                    s@,
                    Halt::Fail(multispace_end(s@, e as int) as usize, ErrorKind::Eof),
                )
            },
            Err(h) => out matches Err(PesError::ParsingFailure(m)) && m@ == prefix@ + nom_failure(s@, h),
        },
{
    match r {
        Ok((w, v, e)) => {
            let t = skip_multispace(c, e);
            if t == c.len() {
                Ok((s.substring_char(i, w), v))
            } else {
                Err(PesError::ParsingFailure(nom_failure_text(prefix, s, Halt::Fail(t, ErrorKind::Eof))))
            }
        },
        Err(h) => Err(PesError::ParsingFailure(nom_failure_text(prefix, s, h))),
    }
}

} // verus!
