//! The base environment of the Jsys job system: the variables of the calling
//! environment that a new environment keeps.
use vstd::prelude::*;

use crate::constants::MANIFEST_NAME;
use crate::parser::paths::{push_path, push_path_part};

verus! {

/// The variables the Jsys base environment keeps, in order.
pub open spec fn jsys_var_names() -> Seq<&'static str> {
    seq![
        "JSYS_PROJECT",
        "JSYS_SEQUENCE",
        "JSYS_SHOT",
        "JSYS_LEVEL",
        "JSYS_ROOT",
        "_",
        "COLORTERM",
        "DBUS_SESSION_BUS_ADDRESS",
        "DEFAULTS_PATH",
        "DESKTOP_SESSION",
        "DISPLAY",
        "GDMSESSION",
        "G_ENABLE_DIAGNOSTIC",
        "GNOME_DESKTOP_SESSION_ID",
        "GNOME_SHELL_SESSION_MODE",
        "GNOME_TERMINAL_SCREEN",
        "GNOME_TERMINAL_SERVICE",
        "GPG_AGENT_INFO",
        "GTK_IM_MODULE",
        "GTK_MODULES",
        "HOME",
        "INVOCATION_ID",
        "JOURNAL_STREAM",
        "LANG",
        "LANGUAGE",
        "LC_ADDRESS",
        "LC_IDENTIFICATION",
        "LC_MEASUREMENT",
        "LC_MONETARY",
        "LC_NAME",
        "LC_NUMERIC",
        "LC_PAPER",
        "LC_TELEPHONE",
        "LC_TIME",
        "LESSCLOSE",
        "LESSOPEN",
        "LOGNAME",
        "LS_COLORS",
        "MANAGERPID",
        "MANDATORY_PATH",
        "PAPERSIZE",
        "PATH",
        "PWD",
        "QT_ACCESSIBILITY",
        "QT_IM_MODULE",
        "SESSION_MANAGER",
        "SHELL",
        "SHLVL",
        "SSH_AGENT_PID",
        "SSH_AUTH_SOCK",
        "TERM",
        "USER",
        "USERNAME",
        "VTE_VERSION",
        "WINDOWPATH",
        "XAUTHORITY",
        "XDG_CONFIG_DIRS",
        "XDG_CURRENT_DESKTOP",
        "XDG_DATA_DIRS",
        "XDG_MENU_PREFIX",
        "XDG_RUNTIME_DIR",
        "XDG_SESSION_CLASS",
        "XDG_SESSION_DESKTOP",
        "XDG_SESSION_TYPE",
        "XMODIFIERS"
    ]
}

/// An entry of an environment, `name=value` (the value empty when unset).
pub open spec fn env_entry(name: Seq<char>, value: Option<Seq<char>>) -> Seq<char> {
    name + seq!['='] + match value {
        Some(v) => v,
        None => Seq::empty(),
    }
}

/// The value of an optional string, by its characters.
pub open spec fn opt_text(v: Option<String>) -> Option<Seq<char>> {
    match v {
        Some(s) => Some(s@),
        None => None,
    }
}

/// The entries of a base environment: `name=value` for each variable, in order,
/// leaving out entries that hold a NUL character (which the system cannot pass).
pub open spec fn base_entries(names: Seq<&'static str>, values: Seq<Option<String>>) -> Seq<Seq<char>>
    decreases names.len(),
{
    if names.len() == 0 || names.len() != values.len() {
        Seq::empty()
    } else {
        let prev = base_entries(names.drop_last(), values.drop_last());
        let e = env_entry(names.last()@, opt_text(values.last()));
        if e.contains('\0') {
            prev
        } else {
            prev.push(e)
        }
    }
}

/// Whether `s` holds a NUL character.
fn has_nul(s: &str) -> (b: bool)
    ensures
        b == s@.contains('\0'),
{
    let n = s.unicode_len();
    let mut i: usize = 0;
    while i < n
        invariant
            n == s@.len(),
            i <= n,
            forall|j: int| 0 <= j < i ==> s@[j] != '\0',
        decreases n - i,
    {
        if s.get_char(i) == '\0' {
            proof {
                assert(s@[i as int] == '\0');
            }
            return true;
        }
        i = i + 1;
    }
    false
}

/// The base environment of the Jsys job system.
#[derive(Debug, Clone)]
pub struct JsysCleanEnv {
    vars: Vec<&'static str>,
}

impl JsysCleanEnv {
    /// The variables kept.
    pub closed spec fn vars_spec(self) -> Seq<&'static str> {
        self.vars@
    }

    /// The base environment with the Jsys variables.
    pub fn new() -> (e: Self)
        ensures
            e.vars_spec() == jsys_var_names(),
    {
        Self::default()
    }

    /// The base environment with the Jsys variables.
    pub fn default() -> (e: Self)
        ensures
            e.vars_spec() == jsys_var_names(),
    {
        let vars = vec![
        "JSYS_PROJECT",
        "JSYS_SEQUENCE",
        "JSYS_SHOT",
        "JSYS_LEVEL",
        "JSYS_ROOT",
        "_",
        "COLORTERM",
        "DBUS_SESSION_BUS_ADDRESS",
        "DEFAULTS_PATH",
        "DESKTOP_SESSION",
        "DISPLAY",
        "GDMSESSION",
        "G_ENABLE_DIAGNOSTIC",
        "GNOME_DESKTOP_SESSION_ID",
        "GNOME_SHELL_SESSION_MODE",
        "GNOME_TERMINAL_SCREEN",
        "GNOME_TERMINAL_SERVICE",
        "GPG_AGENT_INFO",
        "GTK_IM_MODULE",
        "GTK_MODULES",
        "HOME",
        "INVOCATION_ID",
        "JOURNAL_STREAM",
        "LANG",
        "LANGUAGE",
        "LC_ADDRESS",
        "LC_IDENTIFICATION",
        "LC_MEASUREMENT",
        "LC_MONETARY",
        "LC_NAME",
        "LC_NUMERIC",
        "LC_PAPER",
        "LC_TELEPHONE",
        "LC_TIME",
        "LESSCLOSE",
        "LESSOPEN",
        "LOGNAME",
        "LS_COLORS",
        "MANAGERPID",
        "MANDATORY_PATH",
        "PAPERSIZE",
        "PATH",
        "PWD",
        "QT_ACCESSIBILITY",
        "QT_IM_MODULE",
        "SESSION_MANAGER",
        "SHELL",
        "SHLVL",
        "SSH_AGENT_PID",
        "SSH_AUTH_SOCK",
        "TERM",
        "USER",
        "USERNAME",
        "VTE_VERSION",
        "WINDOWPATH",
        "XAUTHORITY",
        "XDG_CONFIG_DIRS",
        "XDG_CURRENT_DESKTOP",
        "XDG_DATA_DIRS",
        "XDG_MENU_PREFIX",
        "XDG_RUNTIME_DIR",
        "XDG_SESSION_CLASS",
        "XDG_SESSION_DESKTOP",
        "XDG_SESSION_TYPE",
        "XMODIFIERS"
    ];
        let e = Self { vars };
        proof {
            assert(e.vars_spec() =~= jsys_var_names());
        }
        e
    }

    /// The names of the variables kept, in order.
    pub fn keys(&self) -> (r: Vec<&'static str>)
        ensures
            r@ == self.vars_spec(),
    {
        let mut r: Vec<&'static str> = Vec::new();
        let mut i: usize = 0;
        while i < self.vars.len()
            invariant
                i <= self.vars@.len(),
                r@ == self.vars@.take(i as int),
            decreases self.vars@.len() - i,
        {
            r.push(self.vars[i]);
            i = i + 1;
            proof {
                assert(r@ =~= self.vars@.take(i as int));
            }
        }
        proof {
            assert(self.vars@.take(i as int) =~= self.vars@);
        }
        r
    }

    /// The base environment, given the values the calling environment holds for
    /// the variables (in the order of `keys`): `name=value` for each, the value
    /// empty when unset, leaving out entries that hold a NUL character.
    pub fn base_env_from(&self, values: &Vec<Option<String>>) -> (r: Vec<String>)
        requires
            values@.len() == self.vars_spec().len(),
        ensures
            r@.map_values(|s: String| s@) == base_entries(self.vars_spec(), values@),
    {
        proof {
            reveal_strlit("=");
        }
        let mut r: Vec<String> = Vec::new();
        let mut i: usize = 0;
        proof {
            assert(self.vars@.take(0) =~= Seq::<&'static str>::empty());
            assert(r@.map_values(|s: String| s@) =~= Seq::<Seq<char>>::empty());
        }
        while i < self.vars.len()
            invariant
                i <= self.vars@.len(),
                values@.len() == self.vars@.len(),
                r@.map_values(|s: String| s@) == base_entries(
                    self.vars@.take(i as int),
                    values@.take(i as int),
                ),
            decreases self.vars@.len() - i,
        {
            let name = self.vars[i];
            let mut e = String::from_str(name);
            e.append("=");
            match &values[i] {
                Some(v) => {
                    e.append(v.as_str());
                },
                None => {},
            }
            let ghost prev = r@.map_values(|s: String| s@);
            proof {
                reveal_strlit("=");
                assert(e@ =~= env_entry(name@, opt_text(values@[i as int])));
                assert(self.vars@.take(i + 1).drop_last() =~= self.vars@.take(i as int));
                assert(values@.take(i + 1).drop_last() =~= values@.take(i as int));
            }
            if !has_nul(e.as_str()) {
                r.push(e);
                proof {
                    assert(r@.map_values(|s: String| s@) =~= prev.push(e@));
                }
            }
            i = i + 1;
        }
        proof {
            assert(self.vars@.take(i as int) =~= self.vars@);
            assert(values@.take(i as int) =~= values@);
        }
        r
    }
}

/// Locates the manifest of a distribution: the manifest file at its root.
#[derive(Debug, Clone, Copy)]
pub struct ManifestFactory;

impl ManifestFactory {
    /// The manifest of the distribution at `distribution`.
    pub fn locate(&self, distribution: &str) -> (r: String)
        ensures
            r@ == push_path(distribution@, MANIFEST_NAME@),
    {
        let mut p = String::from_str(distribution);
        push_path_part(&mut p, MANIFEST_NAME);
        p
    }
}

} // verus!
