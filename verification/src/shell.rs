//! Building the environment of a shell or a command from the environment
//! settings of the packages of a solve, and the arguments that start a shell.
use std::collections::VecDeque;

use vstd::prelude::*;

use crate::env::{texts, BasicVarProvider, PathKind, PathMode};
use crate::error::PesError;
use crate::index_map::{text_entries, text_map_get_index, text_map_len};
use crate::manifest::EnvMap;
use crate::ordered_map::key_index;
use crate::parser::paths::{consuming_all_paths, consuming_paths_failure};
use crate::parser::parse_consuming_all_paths_with_provider;

verus! {

/// The paths after combining paths `you` of kind `kind` with paths `me`, by their
/// characters (see `PathMode::combined`).
pub open spec fn combined_texts(me: Seq<Seq<char>>, kind: PathKind, you: Seq<Seq<char>>) -> Seq<Seq<char>> {
    match kind {
        PathKind::Prepend => you.reverse() + me,
        PathKind::Append => me + you,
        PathKind::Exact => you,
    }
}

/// The variables of an environment by name, each with its kind and its paths.
pub open spec fn env_view(vars: Seq<(String, PathMode)>) -> Seq<(Seq<char>, (PathKind, Seq<Seq<char>>))> {
    vars.map_values(|e: (String, PathMode)| (e.0@, (e.1.kind(), texts(e.1.items()))))
}

/// The environment after a setting of variable `key`: an existing variable keeps
/// its kind and combines the new paths with its own; a new variable takes them.
pub open spec fn setting_applied(
    ev: Seq<(Seq<char>, (PathKind, Seq<Seq<char>>))>,
    key: Seq<char>,
    kind: PathKind,
    ps: Seq<Seq<char>>,
) -> Seq<(Seq<char>, (PathKind, Seq<Seq<char>>))> {
    match key_index(ev, key) {
        Some(i) => ev.update(i, (key, (ev[i].1.0, combined_texts(ev[i].1.1, kind, ps)))),
        None => ev.push((key, (kind, ps))),
    }
}

/// The environment after the settings of a package, in order, with variables
/// resolved by `vars`; or the failure message of the first setting that does
/// not read.
pub open spec fn settings_applied(
    ev: Seq<(Seq<char>, (PathKind, Seq<Seq<char>>))>,
    vars: BasicVarProvider,
    settings: Seq<(Seq<char>, Seq<char>)>,
) -> Result<Seq<(Seq<char>, (PathKind, Seq<Seq<char>>))>, Seq<char>>
    decreases settings.len(),
{
    if settings.len() == 0 {
        Ok(ev)
    } else {
        match consuming_all_paths(settings[0].1, vars) {
            None => Err(consuming_paths_failure(settings[0].1, vars)),
            Some((kind, ps)) => settings_applied(
                setting_applied(ev, settings[0].0, kind, ps),
                vars,
                settings.drop_first(),
            ),
        }
    }
}

/// The paths of `me` combined with `other`, keeping the kind of `me` (as
/// `PathMode::add_assign` does).
fn combined_mode(me: &PathMode, other: PathMode) -> (m: PathMode)
    ensures
        m.is(me.kind(), PathMode::combined(me.items(), other.kind(), other.items())),
{
    let q: &VecDeque<String> = match me {
        PathMode::Append(q) => q,
        PathMode::Prepend(q) => q,
        PathMode::Exact(q) => q,
    };
    let mut copy: VecDeque<String> = VecDeque::new();
    let mut i: usize = 0;
    while i < q.len()
        invariant
            i <= q@.len(),
            copy@ == q@.take(i as int),
        decreases q@.len() - i,
    {
        let s = q[i].clone();
        copy.push_back(s);
        i = i + 1;
        proof {
            assert(copy@ =~= q@.take(i as int));
        }
    }
    proof {
        assert(q@.take(i as int) =~= q@);
    }
    let mut m = PathMode::from_kind(me.kind_of(), copy);
    m.add_assign(other);
    m
}

proof fn lemma_texts_combined(me: Seq<String>, kind: PathKind, you: Seq<String>)
    ensures
        texts(PathMode::combined(me, kind, you)) == combined_texts(texts(me), kind, texts(you)),
{
    match kind {
        PathKind::Prepend => {
            assert(texts(you.reverse() + me) =~= texts(you).reverse() + texts(me));
        },
        PathKind::Append => {
            assert(texts(me + you) =~= texts(me) + texts(you));
        },
        PathKind::Exact => {},
    }
}

/// Applies the environment settings of one package, whose root is `root`, to the
/// environment `env_vars`: `root` is set in `provider`, then each setting is read
/// with `provider` resolving its variables (`{root}` the root) and combined into
/// its variable. Stops at the first setting that does not read.
pub fn apply_settings(
    env_vars: &mut Vec<(String, PathMode)>,
    provider: &mut BasicVarProvider,
    root: &str,
    settings: &EnvMap,
) -> (r: Result<(), PesError>)
    ensures
        final(provider).value_of("root"@) == Some(root@),
        forall|other: Seq<char>|
            other != "root"@ ==> #[trigger] final(provider).value_of(other) == old(provider).value_of(
                other,
            ),
        match settings_applied(
            env_view(old(env_vars)@),
            *final(provider),
            text_entries(*settings),
        ) {
            Ok(ev) => r is Ok && env_view(final(env_vars)@) == ev,
            Err(value) => r matches Err(PesError::PesNomError(m)) && m@ == value,
        },
{
    provider.insert_var("root", root);
    let ghost vp = *provider;
    let ghost all = text_entries(*settings);
    let n = text_map_len(settings);
    let ghost start = env_view(env_vars@);
    let mut i: usize = 0;
    proof {
        assert(all.skip(0) =~= all);
    }
    while i < n
        invariant
            n == all.len(),
            vp == *provider,
            start == env_view(old(env_vars)@),
            vp.value_of("root"@) == Some(root@),
            forall|other: Seq<char>|
                other != "root"@ ==> #[trigger] vp.value_of(other) == old(provider).value_of(other),
            all == text_entries(*settings),
            i <= n,
            settings_applied(start, vp, all) == settings_applied(env_view(env_vars@), vp, all.skip(i as int)),
        decreases n - i,
    {
        let (key, value) = text_map_get_index(settings, i);
        let key = key.as_str();
        let value = value.as_str();
        proof {
            assert(all[i as int] == (key@, value@));
            assert(all.skip(i as int)[0] == all[i as int]);
            assert(all.skip(i as int).drop_first() =~= all.skip(i + 1));
        }
        let mode = match parse_consuming_all_paths_with_provider(provider, value) {
            Ok(mode) => mode,
            Err(e) => {
                return Err(e);
            },
        };
        let ghost ev = env_view(env_vars@);
        proof {
            crate::ordered_map::lemma_key_index(ev, key@);
            crate::ordered_map::lemma_key_index_same_keys(
                crate::ordered_map::pairs_view(env_vars@),
                ev,
                key@,
                0,
            );
            lemma_texts_combined(Seq::empty(), mode.kind(), mode.items());
        }
        match crate::ordered_map::find_key(env_vars, key) {
            Some(k) => {
                let updated = combined_mode(&env_vars[k].1, mode);
                proof {
                    lemma_texts_combined(env_vars@[k as int].1.items(), mode.kind(), mode.items());
                }
                env_vars.set(k, (String::from_str(key), updated));
                proof {
                    assert(env_view(env_vars@) =~= setting_applied(ev, key@, mode.kind(), texts(mode.items())));
                }
            },
            None => {
                env_vars.push((String::from_str(key), mode));
                proof {
                    assert(env_view(env_vars@) =~= setting_applied(ev, key@, mode.kind(), texts(mode.items())));
                }
            },
        }
        i = i + 1;
    }
    proof {
        assert(all.skip(i as int) =~= Seq::<(Seq<char>, Seq<char>)>::empty());
    }
    Ok(())
}

/// Paths joined with `sep` between them.
pub open spec fn joined(ps: Seq<Seq<char>>, sep: char) -> Seq<char>
    decreases ps.len(),
{
    if ps.len() == 0 {
        Seq::empty()
    } else if ps.len() == 1 {
        ps[0]
    } else {
        joined(ps.drop_last(), sep) + seq![sep] + ps.last()
    }
}

/// The entry of variable `name` in an environment: `name=` and its paths joined
/// with `:`.
pub fn env_line(name: &str, mode: &PathMode) -> (r: String)
    ensures
        r@ == name@ + seq!['='] + joined(texts(mode.items()), ':'),
{
    proof {
        reveal_strlit("=");
        reveal_strlit(":");
    }
    let q: &VecDeque<String> = match mode {
        PathMode::Append(q) => q,
        PathMode::Prepend(q) => q,
        PathMode::Exact(q) => q,
    };
    let mut out = String::from_str(name);
    out.append("=");
    let ghost head = out@;
    let mut i: usize = 0;
    while i < q.len()
        invariant
            i <= q@.len(),
            q@ == mode.items(),
            out@ == head + joined(texts(q@.take(i as int)), ':'),
        decreases q@.len() - i,
    {
        let ghost prev = out@;
        if i > 0 {
            out.append(":");
        }
        out.append(q[i].as_str());
        proof {
            reveal_strlit(":");
            let t = texts(q@.take(i + 1));
            assert(t.drop_last() =~= texts(q@.take(i as int)));
            assert(t.last() == q@[i as int]@);
            if i == 0 {
                assert(texts(q@.take(0)) =~= Seq::<Seq<char>>::empty());
                assert(out@ =~= head + joined(t, ':'));
            } else {
                assert(out@ =~= head + joined(t, ':'));
            }
        }
        i = i + 1;
    }
    proof {
        assert(q@.take(i as int) =~= q@);
    }
    out
}

/// The shells an environment can be started in.
#[derive(Debug, Clone, Copy, PartialEq, Eq, Structural)]
pub enum Shell {
    Bash,
    Tcsh,
    Sh,
}

impl Shell {
    /// The shell named `s` (as `$SHELL` gives it).
    pub fn from_str(s: &str) -> (r: Result<Shell, PesError>)
        ensures
            (s@ == "bash"@ || s@ == "/bin/bash"@) ==> r == Ok::<Shell, PesError>(Shell::Bash),
            (s@ == "tcsh"@ || s@ == "-csh"@) ==> r == Ok::<Shell, PesError>(Shell::Tcsh),
            s@ == "sh"@ ==> r == Ok::<Shell, PesError>(Shell::Sh),
            !(s@ == "bash"@ || s@ == "/bin/bash"@ || s@ == "tcsh"@ || s@ == "-csh"@ || s@ == "sh"@)
                ==> (r matches Err(PesError::ParsingFailure(m)) && m@ == "Shell::from_str "@ + s@),
    {
        proof {
            reveal_strlit("bash");
            reveal_strlit("/bin/bash");
            reveal_strlit("tcsh");
            reveal_strlit("-csh");
            reveal_strlit("sh");
            assert("bash"@ != "/bin/bash"@) by {
                assert("bash"@[0] == 'b');
                assert("/bin/bash"@[0] == '/');
            }
            assert("bash"@ != "tcsh"@) by {
                assert("bash"@[0] == 'b');
                assert("tcsh"@[0] == 't');
            }
            assert("bash"@ != "-csh"@) by {
                assert("bash"@[0] == 'b');
                assert("-csh"@[0] == '-');
            }
            assert("bash"@ != "sh"@) by {
                assert("bash"@[0] == 'b');
                assert("sh"@[0] == 's');
            }
            assert("/bin/bash"@ != "tcsh"@) by {
                assert("/bin/bash"@[0] == '/');
                assert("tcsh"@[0] == 't');
            }
            assert("/bin/bash"@ != "-csh"@) by {
                assert("/bin/bash"@[0] == '/');
                assert("-csh"@[0] == '-');
            }
            assert("/bin/bash"@ != "sh"@) by {
                assert("/bin/bash"@[0] == '/');
                assert("sh"@[0] == 's');
            }
            assert("tcsh"@ != "-csh"@) by {
                assert("tcsh"@[0] == 't');
                assert("-csh"@[0] == '-');
            }
            assert("tcsh"@ != "sh"@) by {
                assert("tcsh"@[0] == 't');
                assert("sh"@[0] == 's');
            }
            assert("-csh"@ != "sh"@) by {
                assert("-csh"@[0] == '-');
                assert("sh"@[0] == 's');
            }
        }
        if crate::env::str_equal(s, "bash") || crate::env::str_equal(s, "/bin/bash") {
            Ok(Shell::Bash)
        } else if crate::env::str_equal(s, "tcsh") || crate::env::str_equal(s, "-csh") {
            Ok(Shell::Tcsh)
        } else if crate::env::str_equal(s, "sh") {
            Ok(Shell::Sh)
        } else {
            let mut m = String::from_str("Shell::from_str ");
            m.append(s);
            Err(PesError::ParsingFailure(m))
        }
    }

    /// The arguments that start the shell with a clean environment; `sh` is not
    /// supported.
    pub fn env_args(&self) -> (r: Vec<&'static str>)
        requires
            *self != Shell::Sh,
        ensures
            *self == Shell::Bash ==> r@ == seq!["-i", "bash", "--noprofile", "--norc"],
            *self == Shell::Tcsh ==> r@ == seq!["-i", "tcsh", "-f"],
    {
        match self {
            Shell::Bash => vec!["-i", "bash", "--noprofile", "--norc"],
            _ => vec!["-i", "tcsh", "-f"],
        }
    }
}

/// The words of the lines of a wrapper script that are not comments: each line
/// that does not start with `#`, split at spaces.
pub open spec fn wrapper_words(lines: Seq<Seq<char>>) -> Seq<Seq<char>>
    decreases lines.len(),
{
    if lines.len() == 0 {
        Seq::empty()
    } else {
        let ln = lines.last();
        let prev = wrapper_words(lines.drop_last());
        if ln.len() > 0 && ln[0] == '#' {
            prev
        } else {
            prev + crate::solve::pieces(ln, ' ')
        }
    }
}

/// The arguments of a command started by a wrapper script: the script's path,
/// then the words of the lines of the script that are not comments.
pub fn wrapper_args<'a>(wrapper: &'a str, contents: &'a str) -> (r: Vec<&'a str>)
    ensures
        r@.map_values(|w: &str| w@) == seq![wrapper@] + wrapper_words(
            crate::solve::pieces(contents@, '\n'),
        ),
{
    let lines = split_at_char(contents, '\n');
    let mut out: Vec<&'a str> = Vec::new();
    out.push(wrapper);
    let ghost ls = lines@.map_values(|w: &str| w@);
    let mut i: usize = 0;
    proof {
        assert(ls.take(0) =~= Seq::<Seq<char>>::empty());
        assert(out@.map_values(|w: &str| w@) =~= seq![wrapper@] + wrapper_words(ls.take(0)));
    }
    while i < lines.len()
        invariant
            i <= lines@.len(),
            ls == lines@.map_values(|w: &str| w@),
            out@.map_values(|w: &str| w@) == seq![wrapper@] + wrapper_words(ls.take(i as int)),
        decreases lines@.len() - i,
    {
        let ln = lines[i];
        let ghost prev = out@.map_values(|w: &str| w@);
        proof {
            assert(ls.take(i + 1).drop_last() =~= ls.take(i as int));
            assert(ls.take(i + 1).last() == ln@);
        }
        if ln.unicode_len() > 0 && ln.get_char(0) == '#' {
        } else {
            let words = split_at_char(ln, ' ');
            let mut k: usize = 0;
            while k < words.len()
                invariant
                    k <= words@.len(),
                    out@.map_values(|w: &str| w@) == prev + words@.map_values(|w: &str| w@).take(k as int),
                decreases words@.len() - k,
            {
                let ghost before = out@;
                out.push(words[k]);
                k = k + 1;
                proof {
                    let wv = words@.map_values(|w: &str| w@);
                    assert(out@ == before.push(words@[k - 1]));
                    assert(wv.take(k as int) =~= wv.take(k - 1).push(wv[k - 1]));
                    assert(out@.map_values(|w: &str| w@) =~= before.map_values(|w: &str| w@).push(words@[k - 1]@));
                    assert(out@.map_values(|w: &str| w@) =~= prev + wv.take(k as int));
                }
            }
            proof {
                assert(words@.map_values(|w: &str| w@).take(k as int) =~= words@.map_values(|w: &str| w@));
                assert(prev + crate::solve::pieces(ln@, ' ') =~= seq![wrapper@] + (wrapper_words(ls.take(i as int)) + crate::solve::pieces(ln@, ' ')));
            }
        }
        i = i + 1;
    }
    proof {
        assert(ls.take(i as int) =~= ls);
    }
    out
}

/// `s` split at every `c`, as `str::split` splits it.
pub fn split_at_char<'a>(s: &'a str, c: char) -> (r: Vec<&'a str>)
    ensures
        r@.map_values(|w: &str| w@) == crate::solve::pieces(s@, c),
{
    let chars = crate::text::chars_of(s);
    let n = chars.len();
    let mut out: Vec<&'a str> = Vec::new();
    let mut i: usize = 0;
    proof {
        assert(out@.map_values(|w: &str| w@) + crate::solve::pieces_from(s@, c, 0) =~= crate::solve::pieces(s@, c));
    }
    loop
        invariant
            chars@ == s@,
            n == s@.len(),
            i <= n,
            out@.map_values(|w: &str| w@) + crate::solve::pieces_from(s@, c, i as int) == crate::solve::pieces(s@, c),
        decreases n - i,
    {
        let mut j = i;
        while j < n && chars[j] != c
            invariant
                i <= j <= n,
                n == chars@.len(),
                forall|k: int| i <= k < j ==> chars@[k] != c,
            decreases n - j,
        {
            j = j + 1;
        }
        let piece = s.substring_char(i, j);
        let ghost prev = out@.map_values(|w: &str| w@);
        proof {
            crate::solve::lemma_pieces_from_step(s@, c, i as int, j as int);
        }
        out.push(piece);
        proof {
            assert(out@.map_values(|w: &str| w@) =~= prev.push(piece@));
        }
        if j >= n {
            proof {
                assert(out@.map_values(|w: &str| w@) =~= crate::solve::pieces(s@, c));
            }
            return out;
        }
        proof {
            assert(out@.map_values(|w: &str| w@) + crate::solve::pieces_from(s@, c, j + 1) =~= crate::solve::pieces(s@, c));
        }
        i = j + 1;
    }
}

} // verus!
