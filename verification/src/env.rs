//! Components involved in setting up the environment for a target:
//! - `PathToken`: the tokens an environment path string decomposes into
//! - `PathMode`: how a list of paths combines with an existing variable: by
//!   prepending, appending or replacing it
//! - `BasicVarProvider`: the variables a path string may refer to as `{name}`
use crate::error::PesError;
use std::collections::VecDeque;

use vstd::prelude::*;

verus! {

/// Text that can be turned into an owned `String`.
pub trait Text: Sized {
    /// The characters of the text.
    spec fn chars(self) -> Seq<char>;

    /// The text as an owned `String`.
    fn into_string(self) -> (s: String)
        ensures
            s@ == self.chars(),
    ;
}

impl<'a> Text for &'a str {
    open spec fn chars(self) -> Seq<char> {
        self@
    }

    fn into_string(self) -> (s: String) {
        String::from_str(self)
    }
}

impl Text for String {
    open spec fn chars(self) -> Seq<char> {
        self@
    }

    fn into_string(self) -> (s: String) {
        self
    }
}

/// A path is absolute when it starts with `/`.
pub open spec fn is_absolute(p: Seq<char>) -> bool {
    p.len() > 0 && p[0] == '/'
}

/// Whether a path is absolute.
pub fn path_is_absolute(p: &str) -> (b: bool)
    ensures
        b == is_absolute(p@),
{
    p.unicode_len() > 0 && p.get_char(0) == '/'
}

/// The tokens a path string decomposes into.
///
/// `{root}/python` decomposes into a variable and a relative path.
#[derive(Debug, PartialEq, Eq)]
pub enum PathToken<'a> {
    /// Variable representing the root of a package
    RootVar,
    /// Variable, written `{<VAR NAME>}`
    Variable(&'a str),
    /// The value of a variable, owned
    OwnedVariable(String),
    /// Error state: unknown variable
    UnknownVariable(&'a str),
    /// A relative path
    Relpath(&'a str),
    /// An absolute path
    Abspath(&'a str),
}

impl<'a> PathToken<'a> {
    /// Construct a `PathToken::Variable`.
    pub fn variable(value: &'a str) -> (t: Self)
        ensures
            t == PathToken::Variable(value),
    {
        PathToken::Variable(value)
    }

    /// Construct a `PathToken::OwnedVariable`.
    pub fn owned_variable<V: Text>(value: V) -> (t: Self)
        ensures
            t matches PathToken::OwnedVariable(v) && v@ == value.chars(),
    {
        PathToken::OwnedVariable(value.into_string())
    }

    /// Construct a relative or absolute path token, by whether the path is absolute.
    pub fn path(value: &'a str) -> (t: Self)
        ensures
            is_absolute(value@) ==> t == PathToken::Abspath(value),
            !is_absolute(value@) ==> t == PathToken::Relpath(value),
    {
        if path_is_absolute(value) {
            PathToken::Abspath(value)
        } else {
            PathToken::Relpath(value)
        }
    }

    /// Construct a `PathToken::Relpath`; the path must be relative.
    pub fn relpath(value: &'a str) -> (t: Self)
        requires
            !is_absolute(value@),
        ensures
            t == PathToken::Relpath(value),
    {
        PathToken::Relpath(value)
    }

    /// Construct a `PathToken::Abspath`; the path must be absolute.
    pub fn abspath(value: &'a str) -> (t: Self)
        requires
            is_absolute(value@),
        ensures
            t == PathToken::Abspath(value),
    {
        PathToken::Abspath(value)
    }
}

/// How a setting combines with an existing variable.
#[derive(Debug, Copy, Clone, PartialEq, Eq, Structural)]
pub enum PathKind {
    Append,
    Prepend,
    Exact,
}

/// A list of paths together with how it combines with an existing variable.
#[derive(Debug, PartialEq, Eq)]
pub enum PathMode {
    Append(VecDeque<String>),
    Prepend(VecDeque<String>),
    Exact(VecDeque<String>),
}

/// The characters of each string.
pub open spec fn texts(q: Seq<String>) -> Seq<Seq<char>> {
    q.map_values(|x: String| x@)
}

impl PathMode {
    /// How the paths combine with an existing variable.
    pub open spec fn kind(self) -> PathKind {
        match self {
            PathMode::Append(_) => PathKind::Append,
            PathMode::Prepend(_) => PathKind::Prepend,
            PathMode::Exact(_) => PathKind::Exact,
        }
    }

    /// The paths, in order.
    pub open spec fn items(self) -> Seq<String> {
        match self {
            PathMode::Append(q) => q@,
            PathMode::Prepend(q) => q@,
            PathMode::Exact(q) => q@,
        }
    }

    /// A mode of the given kind holding the given paths.
    pub open spec fn is(self, kind: PathKind, items: Seq<String>) -> bool {
        self.kind() == kind && self.items() == items
    }

    /// The paths after combining paths `you` of kind `kind` with paths `me`: a
    /// prepend puts its paths in front one by one (so in reverse order), an append
    /// puts them behind, an exact setting replaces them.
    pub open spec fn combined(me: Seq<String>, kind: PathKind, you: Seq<String>) -> Seq<String> {
        match kind {
            PathKind::Prepend => you.reverse() + me,
            PathKind::Append => me + you,
            PathKind::Exact => you,
        }
    }

    /// Construct a mode of a kind.
    pub fn from_kind(kind: PathKind, items: VecDeque<String>) -> (m: PathMode)
        ensures
            m.is(kind, items@),
    {
        match kind {
            PathKind::Append => PathMode::Append(items),
            PathKind::Prepend => PathMode::Prepend(items),
            PathKind::Exact => PathMode::Exact(items),
        }
    }

    /// The paths held.
    pub fn inner(self) -> (q: VecDeque<String>)
        ensures
            q@ == self.items(),
    {
        match self {
            PathMode::Append(me) => me,
            PathMode::Prepend(me) => me,
            PathMode::Exact(me) => me,
        }
    }

    /// Combine with `other`: the result has the kind of `other`, and its paths are
    /// those of `self` combined with those of `other` (see `combined`).
    pub fn add(self, other: PathMode) -> (m: PathMode)
        ensures
            m.is(other.kind(), PathMode::combined(self.items(), other.kind(), other.items())),
    {
        let kind = other.kind_of();
        let me = self.inner();
        let you = other.inner();
        let q = combine_queues(me, kind, you);
        PathMode::from_kind(kind, q)
    }

    /// Combine `other` into `self`: `self` keeps its kind, and its paths become those
    /// of `self` combined with those of `other` (see `combined`).
    pub fn add_assign(&mut self, other: PathMode)
        ensures
            final(self).is(
                old(self).kind(),
                PathMode::combined(old(self).items(), other.kind(), other.items()),
            ),
    {
        let kind = other.kind_of();
        let you = other.inner();
        match self {
            PathMode::Append(me) => {
                let mut old_me = VecDeque::new();
                std::mem::swap(me, &mut old_me);
                *me = combine_queues(old_me, kind, you);
            },
            PathMode::Prepend(me) => {
                let mut old_me = VecDeque::new();
                std::mem::swap(me, &mut old_me);
                *me = combine_queues(old_me, kind, you);
            },
            PathMode::Exact(me) => {
                let mut old_me = VecDeque::new();
                std::mem::swap(me, &mut old_me);
                *me = combine_queues(old_me, kind, you);
            },
        }
    }

    /// How the paths combine with an existing variable.
    pub fn kind_of(&self) -> (k: PathKind)
        ensures
            k == self.kind(),
    {
        match self {
            PathMode::Append(_) => PathKind::Append,
            PathMode::Prepend(_) => PathKind::Prepend,
            PathMode::Exact(_) => PathKind::Exact,
        }
    }
}

fn combine_queues(me: VecDeque<String>, kind: PathKind, you: VecDeque<String>) -> (q: VecDeque<
    String,
>)
    ensures
        q@ == PathMode::combined(me@, kind, you@),
{
    match kind {
        PathKind::Exact => you,
        PathKind::Append => {
            let mut me = me;
            let mut you = you;
            let ghost me0 = me@;
            let ghost you0 = you@;
            while you.len() > 0
                invariant
                    me0 + you0 == me@ + you@,
                decreases you@.len(),
            {
                let v = you.pop_front().unwrap();
                me.push_back(v);
                proof {
                    assert(me0 + you0 =~= me@ + you@);
                }
            }
            assert(me@ =~= me0 + you0);
            me
        },
        PathKind::Prepend => {
            let mut me = me;
            let mut you = you;
            let ghost me0 = me@;
            let ghost you0 = you@;
            let ghost mut k: int = 0;
            proof {
                assert(you0.subrange(0, 0).reverse() + me0 =~= me0);
                assert(you0.subrange(0, you0.len() as int) =~= you0);
            }
            while you.len() > 0
                invariant
                    0 <= k <= you0.len(),
                    you@ == you0.subrange(k, you0.len() as int),
                    me@ == you0.subrange(0, k).reverse() + me0,
                decreases you@.len(),
            {
                let ghost old_you = you@;
                let v = you.pop_front().unwrap();
                proof {
                    assert(v == you0[k]);
                }
                me.push_front(v);
                proof {
                    assert(you0.subrange(0, k + 1).reverse() =~= seq![v] + you0.subrange(
                        0,
                        k,
                    ).reverse());
                    assert(you@ =~= you0.subrange(k + 1, you0.len() as int));
                    k = k + 1;
                    assert(me@ =~= you0.subrange(0, k).reverse() + me0);
                }
            }
            proof {
                assert(you0.subrange(0, k) =~= you0);
            }
            me
        },
    }
}

/// Provides variables to the path parser. Variables are inserted before the
/// provider is handed to the parser.
#[derive(Debug, Clone)]
pub struct BasicVarProvider {
    inner: Vec<(String, String)>,
}

/// The value of the first entry with key `k`.
pub open spec fn first_value(entries: Seq<(String, String)>, k: Seq<char>) -> Option<Seq<char>>
    decreases entries.len(),
{
    if entries.len() == 0 {
        None
    } else if entries[0].0@ == k {
        Some(entries[0].1@)
    } else {
        first_value(entries.drop_first(), k)
    }
}

/// The index of the first entry with key `k`.
pub open spec fn first_index(entries: Seq<(String, String)>, k: Seq<char>) -> Option<int>
    decreases entries.len(),
{
    if entries.len() == 0 {
        None
    } else if entries[0].0@ == k {
        Some(0)
    } else {
        match first_index(entries.drop_first(), k) {
            Some(i) => Some(i + 1),
            None => None,
        }
    }
}

impl BasicVarProvider {
    /// The value of variable `k`, if it is set.
    pub closed spec fn value_of(self, k: Seq<char>) -> Option<Seq<char>> {
        first_value(self.inner@, k)
    }

    /// A provider with no variables.
    pub fn new() -> (p: Self)
        ensures
            forall|k: Seq<char>| p.value_of(k) is None,
    {
        BasicVarProvider { inner: Vec::new() }
    }

    /// A provider with no variables.
    pub fn default() -> (p: Self)
        ensures
            forall|k: Seq<char>| p.value_of(k) is None,
    {
        Self::new()
    }

    /// Sets variable `k` to `v`, returning its previous value.
    pub fn insert<K: Text, V: Text>(&mut self, k: K, v: V) -> (old_value: Option<String>)
        ensures
            match old(self).value_of(k.chars()) {
                Some(x) => old_value matches Some(o) && o@ == x,
                None => old_value is None,
            },
            final(self).value_of(k.chars()) == Some(v.chars()),
            forall|other: Seq<char>| other != k.chars() ==> #[trigger] final(self).value_of(other)
                == old(self).value_of(other),
    {
        let key = k.into_string();
        let value = v.into_string();
        let n = self.inner.len();
        let mut i: usize = 0;
        while i < n
            invariant
                n == self.inner@.len(),
                i <= n,
                forall|j: int| 0 <= j < i ==> (#[trigger] self.inner@[j]).0@ != key@,
                key@ == k.chars(),
                value@ == v.chars(),
                *self == *old(self),
            decreases n - i,
        {
            if str_equal(self.inner[i].0.as_str(), key.as_str()) {
                let ghost before = self.inner@;
                let old_value = self.inner[i].1.clone();
                self.inner.set(i, (key, value));
                proof {
                    lemma_first_value_at(before, i as int, key@);
                    lemma_first_value_update(before, i as int, key@, self.inner@);
                }
                return Some(old_value);
            }
            i = i + 1;
        }
        let ghost before = self.inner@;
        proof {
            lemma_first_value_absent(before, key@);
        }
        self.inner.push((key, value));
        proof {
            lemma_first_value_push(before, self.inner@);
        }
        None
    }

    /// The value of variable `k`, if it is set.
    pub fn get(&self, k: &str) -> (r: Option<&str>)
        ensures
            match self.value_of(k@) {
                Some(x) => r matches Some(v) && v@ == x,
                None => r is None,
            },
    {
        let n = self.inner.len();
        let mut i: usize = 0;
        while i < n
            invariant
                n == self.inner@.len(),
                i <= n,
                forall|j: int| 0 <= j < i ==> (#[trigger] self.inner@[j]).0@ != k@,
            decreases n - i,
        {
            if str_equal(self.inner[i].0.as_str(), k) {
                proof {
                    lemma_first_value_at(self.inner@, i as int, k@);
                }
                return Some(self.inner[i].1.as_str());
            }
            i = i + 1;
        }
        proof {
            lemma_first_value_absent(self.inner@, k@);
        }
        None
    }

    /// Sets variable `key` to `value`.
    pub fn insert_var<K: Text, V: Text>(&mut self, key: K, value: V)
        ensures
            final(self).value_of(key.chars()) == Some(value.chars()),
            forall|other: Seq<char>| other != key.chars() ==> #[trigger] final(self).value_of(
                other,
            ) == old(self).value_of(other),
    {
        self.insert(key, value);
    }

    /// Sets `variable` to the value the environment holds for it, `value` as the
    /// caller read it; a variable the environment does not hold is an error, and
    /// the provider is left as it was.
    pub fn insert_env_var(&mut self, variable: &str, value: Option<String>) -> (r: Result<(), PesError>)
        ensures
            match value {
                Some(v) => {
                    &&& r is Ok
                    &&& final(self).value_of(variable@) == Some(v@)
                    &&& forall|other: Seq<char>| other != variable@ ==> #[trigger] final(self).value_of(other)
                        == old(self).value_of(other)
                },
                None => {
                    &&& r matches Err(PesError::MissingEnvVar(m)) && m@ == variable@
                    &&& *final(self) == *old(self)
                },
            },
    {
        match value {
            Some(v) => {
                self.insert(variable, v);
                Ok(())
            },
            None => Err(PesError::MissingEnvVar(variable.to_string())),
        }
    }
}

/// Two strings are equal.
pub fn str_equal(a: &str, b: &str) -> (r: bool)
    ensures
        r == (a@ == b@),
{
    let n = a.unicode_len();
    if n != b.unicode_len() {
        return false;
    }
    let mut k: usize = 0;
    while k < n
        invariant
            n == a@.len(),
            n == b@.len(),
            k <= n,
            forall|j: int| 0 <= j < k ==> a@[j] == b@[j],
        decreases n - k,
    {
        if a.get_char(k) != b.get_char(k) {
            return false;
        }
        k = k + 1;
    }
    assert(a@ =~= b@);
    true
}

proof fn lemma_first_value_at(entries: Seq<(String, String)>, i: int, k: Seq<char>)
    requires
        0 <= i < entries.len(),
        entries[i].0@ == k,
        forall|j: int| 0 <= j < i ==> (#[trigger] entries[j]).0@ != k,
    ensures
        first_value(entries, k) == Some(entries[i].1@),
    decreases i,
{
    if i > 0 {
        lemma_first_value_at(entries.drop_first(), i - 1, k);
    }
}

proof fn lemma_first_value_absent(entries: Seq<(String, String)>, k: Seq<char>)
    requires
        forall|j: int| 0 <= j < entries.len() ==> (#[trigger] entries[j]).0@ != k,
    ensures
        first_value(entries, k) is None,
    decreases entries.len(),
{
    if entries.len() > 0 {
        lemma_first_value_absent(entries.drop_first(), k);
    }
}

/// Replacing the value of the first entry for `k` changes the value of `k` only.
proof fn lemma_first_value_update(
    before: Seq<(String, String)>,
    i: int,
    k: Seq<char>,
    after: Seq<(String, String)>,
)
    requires
        0 <= i < before.len(),
        before[i].0@ == k,
        forall|j: int| 0 <= j < i ==> (#[trigger] before[j]).0@ != k,
        after.len() == before.len(),
        after[i].0@ == before[i].0@,
        forall|j: int| 0 <= j < before.len() && j != i ==> after[j] == before[j],
    ensures
        first_value(after, k) == Some(after[i].1@),
        forall|other: Seq<char>| other != k ==> #[trigger] first_value(after, other) == first_value(
            before,
            other,
        ),
    decreases i,
{
    lemma_first_value_at(after, i, k);
    assert forall|other: Seq<char>| other != k implies #[trigger] first_value(after, other)
        == first_value(before, other) by {
        lemma_first_value_same_keys(before, after, i, other);
    }
}

proof fn lemma_first_value_same_keys(
    before: Seq<(String, String)>,
    after: Seq<(String, String)>,
    i: int,
    other: Seq<char>,
)
    requires
        0 <= i < before.len(),
        before[i].0@ != other,
        after.len() == before.len(),
        after[i].0@ == before[i].0@,
        forall|j: int| 0 <= j < before.len() && j != i ==> after[j] == before[j],
    ensures
        first_value(after, other) == first_value(before, other),
    decreases before.len(),
{
    if before.len() > 0 {
        if i == 0 {
            assert(after.drop_first() =~= before.drop_first());
        } else if before[0].0@ != other {
            lemma_first_value_same_keys(before.drop_first(), after.drop_first(), i - 1, other);
        }
    }
}

proof fn lemma_first_value_push(before: Seq<(String, String)>, after: Seq<(String, String)>)
    requires
        after.len() == before.len() + 1,
        forall|j: int| 0 <= j < before.len() ==> after[j] == before[j],
        first_value(before, after[before.len() as int].0@) is None,
    ensures
        first_value(after, after[before.len() as int].0@) == Some(after[before.len() as int].1@),
        forall|other: Seq<char>| other != after[before.len() as int].0@ ==> #[trigger] first_value(
            after,
            other,
        ) == first_value(before, other),
    decreases before.len(),
{
    if before.len() > 0 {
        lemma_first_value_push(before.drop_first(), after.drop_first());
        assert forall|other: Seq<char>| other != after[before.len() as int].0@ implies
            #[trigger] first_value(after, other) == first_value(before, other) by {
            if before[0].0@ != other {
                assert(first_value(after.drop_first(), other) == first_value(
                    before.drop_first(),
                    other,
                ));
            }
        }
    } else {
        assert forall|other: Seq<char>| other != after[before.len() as int].0@ implies
            #[trigger] first_value(after, other) == first_value(before, other) by {
            assert(after.drop_first().len() == 0);
            assert(first_value(after.drop_first(), other) is None);
            assert(first_value(before, other) is None);
        }
    }
}

} // verus!
