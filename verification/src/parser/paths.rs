//! The grammar of environment settings: one or more paths separated by `:`,
//! optionally wrapped in `append( .. )` or `prepend( .. )`. A path is a sequence
//! of absolute parts (`/a/b`), relative parts (`a/b`) and variables (`{name}`,
//! replaced by their value; a `/` right after the closing brace is dropped).
use std::collections::VecDeque;

use vstd::prelude::*;

use crate::env::{is_absolute, path_is_absolute, texts, BasicVarProvider, PathKind, PathMode, PathToken};
use crate::error::{ErrorKind, PesError, PesNomError};
use crate::parser::grammar::Halt;
use crate::parser::outcome::{nom_debug, nom_error, no_match, push_nom_debug};
use crate::parser::grammar::char_at;
use crate::parser::scan::{char_is, scan_word, skip_multispace, tag_at};
use crate::text::{
    chars_of, has_tag, is_alpha, is_alpha_char, lemma_multispace_end_bounds,
    lemma_word_chars_end_bounds, multispace_end, word_chars_end, word_end,
};

verus! {

/// The end of a run of `/` and words starting at `i`.
pub open spec fn path_tail_end(s: Seq<char>, i: int) -> int
    decreases s.len() - i,
{
    if 0 <= i < s.len() && s[i] == '/' {
        path_tail_end(s, i + 1)
    } else if 0 <= i < s.len() && is_alpha(s[i]) {
        proof {
            lemma_word_chars_end_bounds(s, i + 1);
        }
        path_tail_end(s, word_chars_end(s, i + 1))
    } else {
        i
    }
}

pub open spec fn tag_close_slash() -> Seq<char> {
    seq!['}', '/']
}

pub open spec fn tag_append() -> Seq<char> {
    seq!['a', 'p', 'p', 'e', 'n', 'd', '(']
}

pub open spec fn tag_prepend() -> Seq<char> {
    seq!['p', 'r', 'e', 'p', 'e', 'n', 'd', '(']
}

/// The end of a relative part of a path at `i`: a word, then words and `/`.
pub open spec fn relpath_end(s: Seq<char>, i: int) -> Option<int> {
    if 0 <= i < s.len() && is_alpha(s[i]) {
        Some(path_tail_end(s, word_chars_end(s, i + 1)))
    } else {
        None
    }
}

/// The end of an absolute part of a path at `i`: `/`, then words and `/`.
pub open spec fn abspath_end(s: Seq<char>, i: int) -> Option<int> {
    if char_at(s, i, '/') {
        Some(path_tail_end(s, i + 1))
    } else {
        None
    }
}

/// A variable in braces at `i`, `{name}`, where a `/` right after the closing
/// brace is taken with it: the end of the name and the end of the variable.
pub open spec fn var_at(s: Seq<char>, i: int) -> Option<(int, int)> {
    if !char_at(s, i, '{') {
        None
    } else {
        match word_end(s, i + 1) {
            None => None,
            Some(w) => if has_tag(s, w, tag_close_slash()) {
                Some((w, w + 2))
            } else if char_at(s, w, '}') {
                Some((w, w + 1))
            } else {
                None
            },
        }
    }
}

/// Where reading a variable in braces at `i` fails when there is none there, and
/// what was expected: the `{`, a name after it, or the closing brace.
pub open spec fn var_fail(s: Seq<char>, i: int) -> (int, ErrorKind) {
    if !char_at(s, i, '{') {
        (i, ErrorKind::Tag)
    } else {
        match word_end(s, i + 1) {
            None => (i + 1, ErrorKind::Alpha),
            Some(w) => (w, ErrorKind::Tag),
        }
    }
}

/// A variable in braces at `i` that `vars` does not know: its name.
pub open spec fn unknown_var(s: Seq<char>, i: int, vars: BasicVarProvider) -> Option<Seq<char>> {
    match var_at(s, i) {
        Some((w, _)) => if vars.value_of(s.subrange(i + 1, w)) is None {
            Some(s.subrange(i + 1, w))
        } else {
            None
        },
        None => None,
    }
}

/// One part of a path at `i`: an absolute part, a relative part, or a variable
/// in braces that `vars` knows. Gives the text the part stands for and its end.
pub open spec fn path_token(s: Seq<char>, i: int, vars: BasicVarProvider) -> Option<(Seq<char>, int)> {
    if let Some(e) = abspath_end(s, i) {
        Some((s.subrange(i, e), e))
    } else if let Some(e) = relpath_end(s, i) {
        Some((s.subrange(i, e), e))
    } else {
        match var_at(s, i) {
            None => None,
            Some((w, e)) => match vars.value_of(s.subrange(i + 1, w)) {
                None => None,
                Some(v) => Some((v, e)),
            },
        }
    }
}

/// A path after pushing `t` onto `buf`: an absolute `t` replaces it, otherwise `t`
/// is joined to it with a `/` unless it is empty or already ends with one.
pub open spec fn push_path(buf: Seq<char>, t: Seq<char>) -> Seq<char> {
    if is_absolute(t) {
        t
    } else if buf.len() > 0 && buf.last() != '/' {
        buf + seq!['/'] + t
    } else {
        buf + t
    }
}

pub proof fn lemma_path_tail_end_bounds(s: Seq<char>, i: int)
    requires
        0 <= i <= s.len(),
    ensures
        i <= path_tail_end(s, i) <= s.len(),
    decreases s.len() - i,
{
    if i < s.len() && s[i] == '/' {
        lemma_path_tail_end_bounds(s, i + 1);
    } else if i < s.len() && is_alpha(s[i]) {
        lemma_word_chars_end_bounds(s, i + 1);
        lemma_path_tail_end_bounds(s, word_chars_end(s, i + 1));
    }
}

pub proof fn lemma_path_token_bounds(s: Seq<char>, i: int, vars: BasicVarProvider)
    requires
        0 <= i <= s.len(),
    ensures
        path_token(s, i, vars) matches Some((_, e)) ==> i < e <= s.len(),
{
    if char_at(s, i, '/') {
        lemma_path_tail_end_bounds(s, i + 1);
    } else if 0 <= i < s.len() && is_alpha(s[i]) {
        lemma_word_chars_end_bounds(s, i + 1);
        lemma_path_tail_end_bounds(s, word_chars_end(s, i + 1));
    } else if char_at(s, i, '{') && i + 1 < s.len() {
        lemma_word_chars_end_bounds(s, i + 2);
    }
}

/// Reads further parts from `i`, pushing them onto `buf`, as long as there are.
pub open spec fn tokens_from(s: Seq<char>, i: int, vars: BasicVarProvider, buf: Seq<char>) -> (Seq<char>, int)
    decreases s.len() - i,
{
    if 0 <= i <= s.len() {
        match path_token(s, i, vars) {
            None => (buf, i),
            Some((t, e)) => {
                proof {
                    lemma_path_token_bounds(s, i, vars);
                }
                tokens_from(s, e, vars, push_path(buf, t))
            },
        }
    } else {
        (buf, i)
    }
}

pub proof fn lemma_tokens_from_bounds(s: Seq<char>, i: int, vars: BasicVarProvider, buf: Seq<char>)
    requires
        0 <= i <= s.len(),
    ensures
        i <= tokens_from(s, i, vars, buf).1 <= s.len(),
    decreases s.len() - i,
{
    lemma_path_token_bounds(s, i, vars);
    if let Some((t, e)) = path_token(s, i, vars) {
        lemma_tokens_from_bounds(s, e, vars, push_path(buf, t));
    }
}

/// A path: one or more parts. Gives the path and its end.
pub open spec fn path(s: Seq<char>, i: int, vars: BasicVarProvider) -> Option<(Seq<char>, int)> {
    match path_token(s, i, vars) {
        None => None,
        Some((t, e)) => Some(tokens_from(s, e, vars, push_path(Seq::empty(), t))),
    }
}

pub proof fn lemma_path_bounds(s: Seq<char>, i: int, vars: BasicVarProvider)
    requires
        0 <= i <= s.len(),
    ensures
        path(s, i, vars) matches Some((_, e)) ==> i < e <= s.len(),
{
    lemma_path_token_bounds(s, i, vars);
    if let Some((t, e)) = path_token(s, i, vars) {
        lemma_tokens_from_bounds(s, e, vars, push_path(Seq::empty(), t));
    }
}

/// Reads further `:`-separated paths from `i` onto `acc`.
pub open spec fn paths_rest(s: Seq<char>, i: int, vars: BasicVarProvider, acc: Seq<Seq<char>>) -> (Seq<Seq<char>>, int)
    decreases s.len() - i,
{
    if 0 <= i < s.len() && s[i] == ':' {
        match path(s, i + 1, vars) {
            None => (acc, i),
            Some((p, e)) => {
                proof {
                    lemma_path_bounds(s, i + 1, vars);
                }
                paths_rest(s, e, vars, acc.push(p))
            },
        }
    } else {
        (acc, i)
    }
}

/// Zero or more paths separated by `:`.
pub open spec fn paths(s: Seq<char>, i: int, vars: BasicVarProvider) -> (Seq<Seq<char>>, int) {
    match path(s, i, vars) {
        None => (Seq::empty(), i),
        Some((p, e)) => paths_rest(s, e, vars, seq![p]),
    }
}

pub proof fn lemma_paths_rest_bounds(s: Seq<char>, i: int, vars: BasicVarProvider, acc: Seq<Seq<char>>)
    requires
        0 <= i <= s.len(),
    ensures
        i <= paths_rest(s, i, vars, acc).1 <= s.len(),
    decreases s.len() - i,
{
    if 0 <= i < s.len() && s[i] == ':' {
        lemma_path_bounds(s, i + 1, vars);
        if let Some((p, e)) = path(s, i + 1, vars) {
            lemma_paths_rest_bounds(s, e, vars, acc.push(p));
        }
    }
}

pub proof fn lemma_paths_bounds(s: Seq<char>, i: int, vars: BasicVarProvider)
    requires
        0 <= i <= s.len(),
    ensures
        i <= paths(s, i, vars).1 <= s.len(),
{
    lemma_path_bounds(s, i, vars);
    if let Some((p, e)) = path(s, i, vars) {
        lemma_paths_rest_bounds(s, e, vars, seq![p]);
    }
}

/// `append(` or `prepend(` (by `tag`), white space, paths, white space and `)`.
pub open spec fn wrapped_paths(s: Seq<char>, i: int, vars: BasicVarProvider, tag: Seq<char>) -> Option<(Seq<Seq<char>>, int)> {
    if !has_tag(s, i, tag) {
        None
    } else {
        let (ps, e) = paths(s, multispace_end(s, i + tag.len()), vars);
        let k = multispace_end(s, e);
        if char_at(s, k, ')') {
            Some((ps, k + 1))
        } else {
            None
        }
    }
}

/// Where reading `tag`, paths and `)` at `i` fails when it does: at `i` when
/// the tag is missing, else where the `)` was expected.
pub open spec fn wrapped_fail(s: Seq<char>, i: int, vars: BasicVarProvider, tag: Seq<char>) -> int {
    if !has_tag(s, i, tag) {
        i
    } else {
        multispace_end(s, paths(s, multispace_end(s, i + tag.len()), vars).1)
    }
}

/// A setting: `append(paths)`, `prepend(paths)` or plain paths (which replace
/// the variable). Gives the kind, the paths and the end.
pub open spec fn all_paths(s: Seq<char>, i: int, vars: BasicVarProvider) -> (PathKind, Seq<Seq<char>>, int) {
    match wrapped_paths(s, i, vars, tag_append()) {
        Some((ps, e)) => (PathKind::Append, ps, e),
        None => match wrapped_paths(s, i, vars, tag_prepend()) {
            Some((ps, e)) => (PathKind::Prepend, ps, e),
            None => {
                let (ps, e) = paths(s, i, vars);
                (PathKind::Exact, ps, e)
            },
        },
    }
}

/// How a failed read of a whole setting is reported: `Parsing Error: ` and the
/// debug form of the error.
pub open spec fn parsing_error_prefix() -> Seq<char> {
    seq!['P', 'a', 'r', 's', 'i', 'n', 'g', ' ', 'E', 'r', 'r', 'o', 'r', ':', ' ']
}

/// The message of a setting `s` that is not read whole: what remains after the
/// setting and the white space after it, where the end was expected.
pub open spec fn consuming_paths_failure(s: Seq<char>, vars: BasicVarProvider) -> Seq<char> {
    parsing_error_prefix() + nom_debug(
        s,
        multispace_end(s, all_paths(s, multispace_end(s, 0), vars).2),
        ErrorKind::Eof,
    )
}

/// A whole setting, with white space around it and nothing else.
pub open spec fn consuming_all_paths(s: Seq<char>, vars: BasicVarProvider) -> Option<(PathKind, Seq<Seq<char>>)> {
    let (kind, ps, e) = all_paths(s, multispace_end(s, 0), vars);
    if multispace_end(s, e) == s.len() {
        Some((kind, ps))
    } else {
        None
    }
}

// ------------------------------------------------------------------
// executable readers
// ------------------------------------------------------------------

fn scan_path_tail(s: &Vec<char>, i: usize) -> (e: usize)
    requires
        i <= s.len(),
    ensures
        e as int == path_tail_end(s@, i as int),
        i <= e <= s@.len(),
{
    proof {
        lemma_path_tail_end_bounds(s@, i as int);
    }
    let mut j = i;
    loop
        invariant
            i <= j <= s@.len(),
            path_tail_end(s@, i as int) == path_tail_end(s@, j as int),
        decreases s@.len() - j,
    {
        if j < s.len() && s[j] == '/' {
            j = j + 1;
        } else if j < s.len() && is_alpha_char(s[j]) {
            match scan_word(s, j) {
                Some(w) => {
                    j = w;
                },
                None => {
                    return j;
                },
            }
        } else {
            return j;
        }
    }
}

/// Reads one part of a path at `i`: the text it stands for and its end.
fn scan_path_token<'b>(s: &Vec<char>, input: &'b str, i: usize, vars: &'b BasicVarProvider) -> (r:
    Option<(&'b str, usize)>)
    requires
        s@ == input@,
        i <= s.len(),
    ensures
        match path_token(s@, i as int, *vars) {
            None => r is None,
            Some((t, e)) => r matches Some((t2, e2)) && t2@ == t && e2 as int == e,
        },
{
    proof {
        lemma_path_token_bounds(s@, i as int, *vars);
        reveal_strlit("}/");
        assert("}/"@ =~= tag_close_slash());
    }
    if char_is(s, i, '/') {
        let e = scan_path_tail(s, i + 1);
        Some((input.substring_char(i, e), e))
    } else if i < s.len() && is_alpha_char(s[i]) {
        let w = scan_word(s, i).unwrap();
        let e = scan_path_tail(s, w);
        Some((input.substring_char(i, e), e))
    } else if char_is(s, i, '{') {
        match scan_word(s, i + 1) {
            None => None,
            Some(w) => {
                let e = if tag_at(s, w, "}/") {
                    w + 2
                } else if char_is(s, w, '}') {
                    w + 1
                } else {
                    return None;
                };
                match vars.get(input.substring_char(i + 1, w)) {
                    None => None,
                    Some(v) => Some((v, e)),
                }
            },
        }
    } else {
        None
    }
}

/// Pushes a path part onto a path (see `push_path`).
pub fn push_path_part(buf: &mut String, t: &str)
    ensures
        final(buf)@ == push_path(old(buf)@, t@),
{
    proof {
        reveal_strlit("/");
    }
    if path_is_absolute(t) {
        *buf = String::from_str(t);
    } else {
        let n = buf.as_str().unicode_len();
        if n > 0 && buf.as_str().get_char(n - 1) != '/' {
            buf.append("/");
            buf.append(t);
        } else {
            buf.append(t);
        }
    }
}

/// Reads a path at `i`.
fn scan_path(s: &Vec<char>, input: &str, i: usize, vars: &BasicVarProvider) -> (r: Option<
    (String, usize),
>)
    requires
        s@ == input@,
        i <= s.len(),
    ensures
        match path(s@, i as int, *vars) {
            None => r is None,
            Some((p, e)) => r matches Some((p2, e2)) && p2@ == p && e2 as int == e,
        },
{
    let (t, e0) = match scan_path_token(s, input, i, vars) {
        None => {
            return None;
        },
        Some(x) => x,
    };
    proof {
        lemma_path_token_bounds(s@, i as int, *vars);
    }
    let mut buf = String::new();
    push_path_part(&mut buf, t);
    let mut j = e0;
    loop
        invariant
            s@ == input@,
            j <= s@.len(),
            path(s@, i as int, *vars) == Some(tokens_from(s@, j as int, *vars, buf@)),
        decreases s@.len() - j,
    {
        proof {
            lemma_path_token_bounds(s@, j as int, *vars);
        }
        match scan_path_token(s, input, j, vars) {
            None => {
                return Some((buf, j));
            },
            Some((t, e)) => {
                push_path_part(&mut buf, t);
                j = e;
            },
        }
    }
}

/// Reads `:`-separated paths at `i`.
fn scan_paths(s: &Vec<char>, input: &str, i: usize, vars: &BasicVarProvider) -> (r: (
    VecDeque<String>,
    usize,
))
    requires
        s@ == input@,
        i <= s.len(),
    ensures
        texts(r.0@) == paths(s@, i as int, *vars).0,
        r.1 as int == paths(s@, i as int, *vars).1,
{
    let mut q: VecDeque<String> = VecDeque::new();
    let (p, e0) = match scan_path(s, input, i, vars) {
        None => {
            proof {
                assert(texts(q@) =~= Seq::<Seq<char>>::empty());
            }
            return (q, i);
        },
        Some(x) => x,
    };
    proof {
        lemma_path_bounds(s@, i as int, *vars);
    }
    q.push_back(p);
    proof {
        assert(texts(q@) =~= seq![p@]);
    }
    let mut j = e0;
    loop
        invariant
            s@ == input@,
            j <= s@.len(),
            paths(s@, i as int, *vars) == paths_rest(s@, j as int, *vars, texts(q@)),
        decreases s@.len() - j,
    {
        if j >= s.len() || s[j] != ':' {
            return (q, j);
        }
        proof {
            lemma_path_bounds(s@, j + 1, *vars);
        }
        match scan_path(s, input, j + 1, vars) {
            None => {
                return (q, j);
            },
            Some((p, e)) => {
                let ghost before = q@;
                q.push_back(p);
                proof {
                    assert(texts(q@) =~= texts(before).push(p@));
                }
                j = e;
            },
        }
    }
}

/// Reads `tag`, white space, paths, white space and `)` at `i`.
fn scan_wrapped_paths(s: &Vec<char>, input: &str, i: usize, vars: &BasicVarProvider, tag: &str) -> (r: Result<(VecDeque<String>, usize), usize>)
    requires
        s@ == input@,
        i <= s.len(),
    ensures
        match wrapped_paths(s@, i as int, *vars, tag@) {
            None => r matches Err(p) && p as int == wrapped_fail(s@, i as int, *vars, tag@) && p <= s@.len(),
            Some((ps, e)) => r matches Ok((q, e2)) && texts(q@) == ps && e2 as int == e,
        },
{
    if !tag_at(s, i, tag) {
        return Err(i);
    }
    let n = tag.unicode_len();
    let j = skip_multispace(s, i + n);
    let (q, e) = scan_paths(s, input, j, vars);
    proof {
        lemma_paths_bounds(s@, j as int, *vars);
    }
    let k = skip_multispace(s, e);
    if char_is(s, k, ')') {
        Ok((q, k + 1))
    } else {
        Err(k)
    }
}

/// Reads a setting at `i`.
fn scan_all_paths(s: &Vec<char>, input: &str, i: usize, vars: &BasicVarProvider) -> (r: (PathMode, usize))
    requires
        s@ == input@,
        i <= s.len(),
    ensures
        r.0.kind() == all_paths(s@, i as int, *vars).0,
        texts(r.0.items()) == all_paths(s@, i as int, *vars).1,
        r.1 as int == all_paths(s@, i as int, *vars).2,
        r.1 <= s@.len(),
{
    proof {
        reveal_strlit("append(");
        reveal_strlit("prepend(");
        assert("append("@ =~= tag_append());
        assert("prepend("@ =~= tag_prepend());
        lemma_paths_bounds(s@, i as int, *vars);
    }
    match scan_wrapped_paths(s, input, i, vars, "append(") {
        Ok((q, e)) => (PathMode::Append(q), e),
        Err(_) => match scan_wrapped_paths(s, input, i, vars, "prepend(") {
            Ok((q, e)) => (PathMode::Prepend(q), e),
            Err(_) => {
                let (q, e) = scan_paths(s, input, i, vars);
                (PathMode::Exact(q), e)
            },
        },
    }
}


/// Where reading a variable in braces at `i` fails (see `var_fail`).
fn scan_var_fail(s: &Vec<char>, i: usize) -> (r: (usize, ErrorKind))
    requires
        i <= s.len(),
    ensures
        r.0 as int == var_fail(s@, i as int).0,
        r.1 == var_fail(s@, i as int).1,
        r.0 <= s@.len(),
{
    if !char_is(s, i, '{') {
        return (i, ErrorKind::Tag);
    }
    match scan_word(s, i + 1) {
        None => (i + 1, ErrorKind::Alpha),
        Some(w) => (w, ErrorKind::Tag),
    }
}

/// Reads a variable in braces at `i` (see `var_at`).
fn scan_var(s: &Vec<char>, i: usize) -> (r: Option<(usize, usize)>)
    requires
        i <= s.len(),
    ensures
        match var_at(s@, i as int) {
            None => r is None,
            Some((w, e)) => r matches Some((w2, e2)) && w2 as int == w && e2 as int == e && i < w
                < e <= s@.len(),
        },
{
    proof {
        reveal_strlit("}/");
        assert("}/"@ =~= tag_close_slash());
    }
    if !char_is(s, i, '{') {
        return None;
    }
    match scan_word(s, i + 1) {
        None => None,
        Some(w) => {
            if tag_at(s, w, "}/") {
                Some((w, w + 2))
            } else if char_is(s, w, '}') {
                Some((w, w + 1))
            } else {
                None
            }
        },
    }
}

/// Moves the paths of a queue, in order, into a vector.
fn queue_to_vec(q: VecDeque<String>) -> (v: Vec<String>)
    ensures
        v@ == q@,
{
    let mut q = q;
    let ghost all = q@;
    let mut v: Vec<String> = Vec::new();
    while q.len() > 0
        invariant
            v@ + q@ == all,
        decreases q@.len(),
    {
        let ghost before = q@;
        let x = q.pop_front().unwrap();
        proof {
            assert(before =~= seq![x] + q@);
            assert(v@.push(x) + q@ =~= v@ + before);
        }
        v.push(x);
    }
    proof {
        assert(v@ =~= v@ + q@);
    }
    v
}

/// Reads a variable in braces, `{name}`, from the start of `s`.
pub fn parse_var<'a>(s: &'a str) -> (r: Result<(&'a str, PathToken<'a>), PesNomError>)
    ensures
        match var_at(s@, 0) {
            Some((w, e)) if char_at(s@, w, '}') => r matches Ok((rest, PathToken::Variable(name)))
                && name@ == s@.subrange(1, w) && rest@ == s@.subrange(w + 1, s@.len() as int),
            _ => r matches Err(e) && nom_error(
                e,
                s@,
                Halt::Fail(var_fail(s@, 0).0 as usize, var_fail(s@, 0).1),
            ),
        },
{
    let c = chars_of(s);
    let (p, k) = scan_var_fail(&c, 0);
    match scan_var(&c, 0) {
        Some((w, _)) => {
            if char_is(&c, w, '}') {
                Ok((s.substring_char(w + 1, c.len()), PathToken::Variable(s.substring_char(1, w))))
            } else {
                Err(no_match(s, p, k))
            }
        },
        None => Err(no_match(s, p, k)),
    }
}

/// Reads a relative part of a path (a word, then words and `/`) from the start
/// of `s`.
pub fn parse_relpath<'a>(s: &'a str) -> (r: Result<(&'a str, PathToken<'a>), PesNomError>)
    ensures
        match relpath_end(s@, 0) {
            Some(e) => r matches Ok((rest, PathToken::Relpath(p))) && p@ == s@.subrange(0, e)
                && rest@ == s@.subrange(e, s@.len() as int),
            None => r matches Err(e) && nom_error(e, s@, Halt::Fail(0, ErrorKind::Alpha)),
        },
{
    let c = chars_of(s);
    if c.len() > 0 && is_alpha_char(c[0]) {
        let w = scan_word(&c, 0).unwrap();
        let e = scan_path_tail(&c, w);
        let p = s.substring_char(0, e);
        Ok((s.substring_char(e, c.len()), PathToken::relpath(p)))
    } else {
        Err(no_match(s, 0, ErrorKind::Alpha))
    }
}

/// Reads an absolute part of a path (`/`, then words and `/`) from the start of `s`.
pub fn parse_abspath<'a>(s: &'a str) -> (r: Result<(&'a str, PathToken<'a>), PesNomError>)
    ensures
        match abspath_end(s@, 0) {
            Some(e) => r matches Ok((rest, PathToken::Abspath(p))) && p@ == s@.subrange(0, e)
                && rest@ == s@.subrange(e, s@.len() as int),
            None => r matches Err(e) && nom_error(e, s@, Halt::Fail(0, ErrorKind::Tag)),
        },
{
    let c = chars_of(s);
    if char_is(&c, 0, '/') {
        let e = scan_path_tail(&c, 1);
        let p = s.substring_char(0, e);
        Ok((s.substring_char(e, c.len()), PathToken::abspath(p)))
    } else {
        Err(no_match(s, 0, ErrorKind::Tag))
    }
}

/// The error of a path parser at the start of `s`: the name of a variable that
/// `vars` does not know, or else where reading a variable failed.
pub open spec fn path_error(e: PesNomError, s: Seq<char>, vars: BasicVarProvider) -> bool {
    match unknown_var(s, 0, vars) {
        Some(name) => e matches PesNomError::InvalidKey(k) && k@ == name,
        None => nom_error(e, s, Halt::Fail(var_fail(s, 0).0 as usize, var_fail(s, 0).1)),
    }
}

/// The error of a path parser that read nothing at the start of `s`.
fn path_failure(s: &str, c: &Vec<char>, provider: &BasicVarProvider) -> (e: PesNomError)
    requires
        c@ == s@,
    ensures
        path_error(e, s@, *provider),
{
    match scan_var(c, 0) {
        Some((w, _)) => {
            let name = s.substring_char(1, w);
            if provider.get(name).is_none() {
                PesNomError::InvalidKey(String::from_str(name))
            } else {
                let (p, k) = scan_var_fail(c, 0);
                no_match(s, p, k)
            }
        },
        None => {
            let (p, k) = scan_var_fail(c, 0);
            no_match(s, p, k)
        },
    }
}

/// Reads a variable in braces that `provider` knows from the start of `s`, as
/// its value; a `/` right after the closing brace is read with it.
pub fn parse_var_with_provider<'a>(provider: &BasicVarProvider, s: &'a str) -> (r: Result<(&'a str, PathToken<'a>), PesNomError>)
    ensures
        match var_at(s@, 0) {
            Some((w, e)) => match provider.value_of(s@.subrange(1, w)) {
                Some(v) => r matches Ok((rest, PathToken::OwnedVariable(value))) && value@ == v
                    && rest@ == s@.subrange(e, s@.len() as int),
                None => r matches Err(e) && path_error(e, s@, *provider),
            },
            None => r matches Err(e) && path_error(e, s@, *provider),
        },
{
    let c = chars_of(s);
    match scan_var(&c, 0) {
        Some((w, e)) => match provider.get(s.substring_char(1, w)) {
            Some(v) => Ok((s.substring_char(e, c.len()), PathToken::OwnedVariable(String::from_str(v)))),
            None => Err(path_failure(s, &c, provider)),
        },
        None => Err(path_failure(s, &c, provider)),
    }
}

/// Reads a path from the start of `s`: one or more absolute parts, relative parts
/// and variables that `provider` knows, joined as paths are.
///
/// `/packages/{root}/stuff/{name}` with `root` set to `foobar` and `name` to
/// `fred` is `/packages/foobar/stuff/fred`.
pub fn parse_path_with_provider<'a>(provider: &BasicVarProvider, s: &'a str) -> (r: Result<(&'a str, String), PesNomError>)
    ensures
        match path(s@, 0, *provider) {
            Some((p, e)) => r matches Ok((rest, p2)) && p2@ == p && rest@ == s@.subrange(
                e,
                s@.len() as int,
            ),
            None => r matches Err(e) && path_error(e, s@, *provider),
        },
{
    let c = chars_of(s);
    proof {
        lemma_path_bounds(s@, 0, *provider);
    }
    match scan_path(&c, s, 0, provider) {
        Some((p, e)) => Ok((s.substring_char(e, c.len()), p)),
        None => Err(path_failure(s, &c, provider)),
    }
}

/// Reads zero or more paths separated by `:` from the start of `s`.
pub fn parse_paths_with_provider<'a>(provider: &BasicVarProvider, s: &'a str) -> (r: Result<(&'a str, Vec<String>), PesNomError>)
    ensures
        r matches Ok((rest, ps)) && texts(ps@) == paths(s@, 0, *provider).0 && rest@ == s@.subrange(
            paths(s@, 0, *provider).1,
            s@.len() as int,
        ),
{
    let c = chars_of(s);
    proof {
        lemma_paths_bounds(s@, 0, *provider);
    }
    let (q, e) = scan_paths(&c, s, 0, provider);
    Ok((s.substring_char(e, c.len()), queue_to_vec(q)))
}

/// Reads `tag`, paths in it and `)` from the start of `s`, as the setting `kind`.
fn parse_wrapped_paths<'a>(provider: &BasicVarProvider, s: &'a str, tag: &str, kind: PathKind) -> (r: Result<(&'a str, PathMode), PesNomError>)
    ensures
        match wrapped_paths(s@, 0, *provider, tag@) {
            Some((ps, e)) => r matches Ok((rest, mode)) && mode.kind() == kind && texts(mode.items())
                == ps && rest@ == s@.subrange(e, s@.len() as int),
            None => r matches Err(e) && nom_error(
                e,
                s@,
                Halt::Fail(wrapped_fail(s@, 0, *provider, tag@) as usize, ErrorKind::Tag),
            ),
        },
{
    let c = chars_of(s);
    match scan_wrapped_paths(&c, s, 0, provider, tag) {
        Ok((q, e)) => Ok((s.substring_char(e, c.len()), PathMode::from_kind(kind, q))),
        Err(p) => Err(no_match(s, p, ErrorKind::Tag)),
    }
}

/// Reads `append(paths)` from the start of `s`: paths to append to a variable.
pub fn parse_append_paths_with_provider<'a>(provider: &BasicVarProvider, s: &'a str) -> (r: Result<(&'a str, PathMode), PesNomError>)
    ensures
        match wrapped_paths(s@, 0, *provider, tag_append()) {
            Some((ps, e)) => r matches Ok((rest, PathMode::Append(q))) && texts(q@) == ps && rest@
                == s@.subrange(e, s@.len() as int),
            None => r matches Err(e) && nom_error(
                e,
                s@,
                Halt::Fail(wrapped_fail(s@, 0, *provider, tag_append()) as usize, ErrorKind::Tag),
            ),
        },
{
    proof {
        reveal_strlit("append(");
        assert("append("@ =~= tag_append());
    }
    parse_wrapped_paths(provider, s, "append(", PathKind::Append)
}

/// Reads `prepend(paths)` from the start of `s`: paths to prepend to a variable.
pub fn parse_prepend_paths_with_provider<'a>(provider: &BasicVarProvider, s: &'a str) -> (r: Result<(&'a str, PathMode), PesNomError>)
    ensures
        match wrapped_paths(s@, 0, *provider, tag_prepend()) {
            Some((ps, e)) => r matches Ok((rest, PathMode::Prepend(q))) && texts(q@) == ps && rest@
                == s@.subrange(e, s@.len() as int),
            None => r matches Err(e) && nom_error(
                e,
                s@,
                Halt::Fail(wrapped_fail(s@, 0, *provider, tag_prepend()) as usize, ErrorKind::Tag),
            ),
        },
{
    proof {
        reveal_strlit("prepend(");
        assert("prepend("@ =~= tag_prepend());
    }
    parse_wrapped_paths(provider, s, "prepend(", PathKind::Prepend)
}

/// Reads plain paths from the start of `s`: paths that replace a variable.
pub fn parse_exact_paths_with_provider<'a>(provider: &BasicVarProvider, s: &'a str) -> (r: Result<(&'a str, PathMode), PesNomError>)
    ensures
        r matches Ok((rest, PathMode::Exact(q))) && texts(q@) == paths(s@, 0, *provider).0 && rest@
            == s@.subrange(paths(s@, 0, *provider).1, s@.len() as int),
{
    let c = chars_of(s);
    proof {
        lemma_paths_bounds(s@, 0, *provider);
    }
    let (q, e) = scan_paths(&c, s, 0, provider);
    Ok((s.substring_char(e, c.len()), PathMode::Exact(q)))
}

// ------------------------------------------------------------------
// public parsers
// ------------------------------------------------------------------

/// Reads an environment setting from the start of `s`, resolving variables with
/// `provider`: `append(paths)`, `prepend(paths)` or plain paths. Returns the rest of
/// the input and the setting. A setting of zero paths is read when nothing matches,
/// so this never fails.
pub fn parse_all_paths_with_provider<'a>(provider: &BasicVarProvider, s: &'a str) -> (r: Result<
    (&'a str, PathMode),
    PesNomError,
>)
    ensures
        r matches Ok((rest, mode)) && ({
            let (kind, ps, e) = all_paths(s@, 0, *provider);
            &&& mode.kind() == kind
            &&& texts(mode.items()) == ps
            &&& rest@ == s@.subrange(e, s@.len() as int)
        }),
{
    let chars = chars_of(s);
    let (mode, e) = scan_all_paths(&chars, s, 0, provider);
    Ok((s.substring_char(e, chars.len()), mode))
}

/// Reads an environment setting that makes up the whole of `s`, apart from white
/// space around it, resolving variables with `provider`.
///
/// `/packages/{root}/stuff:/foo/bar` with `root` set to `foobar` is the exact
/// setting of `/packages/foobar/stuff` and `/foo/bar`.
pub fn parse_consuming_all_paths_with_provider(provider: &BasicVarProvider, s: &str) -> (r: Result<
    PathMode,
    PesError,
>)
    ensures
        match consuming_all_paths(s@, *provider) {
            Some((kind, ps)) => r matches Ok(mode) && mode.kind() == kind && texts(mode.items())
                == ps,
            None => r matches Err(PesError::PesNomError(m)) && m@ == consuming_paths_failure(s@, *provider),
        },
{
    proof {
        reveal_strlit("Parsing Error: ");
        assert("Parsing Error: "@ =~= parsing_error_prefix());
    }
    let chars = chars_of(s);
    let i = skip_multispace(&chars, 0);
    let (mode, e) = scan_all_paths(&chars, s, i, provider);
    let k = skip_multispace(&chars, e);
    if k == chars.len() {
        Ok(mode)
    } else {
        let mut m = String::from_str("Parsing Error: ");
        push_nom_debug(&mut m, s, k, ErrorKind::Eof);
        Err(PesError::PesNomError(m))
    }
}

} // verus!
