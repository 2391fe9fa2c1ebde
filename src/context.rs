//! What the host tells about itself: platform, shell, host name, home and
//! configuration paths, and the environment.

use vstd::prelude::*;
use crate::config::{Platform, Shell};
use crate::text::{chars_of, copy_str, is_blank, string_of, trim, trim_str, ascii_lower};
use crate::varmap::VarMap;

verus! {

#[derive(Debug)]
pub struct ContextEnv {
    pub vars: VarMap,
    pub home: String,
    pub xdg_config_home: String,
    pub platform: Platform,
    pub shell_type: Option<Shell>,
    pub host: String,
    pub config_path: Option<String>,
    pub config_dir: Option<String>,
}

/// The separator paths are built with on a platform.
pub open spec fn sep_of(p: Platform) -> char {
    if p == Platform::Windows {
        '\\'
    } else {
        '/'
    }
}

/// A character that separates path segments on a platform.
pub open spec fn is_sep(p: Platform, c: char) -> bool {
    c == '/' || (p == Platform::Windows && c == '\\')
}

/// `base` joined with a relative `seg`, with one separator between them.
pub open spec fn path_join(p: Platform, base: Seq<char>, seg: Seq<char>) -> Seq<char> {
    if base.len() == 0 {
        seg
    } else if is_sep(p, base.last()) {
        base + seg
    } else {
        base + seq![sep_of(p)] + seg
    }
}

pub fn join_path(p: Platform, base: &str, seg: &str) -> (r: String)
    ensures
        r@ == path_join(p, base@, seg@),
{
    let cs = chars_of(base);
    let mut r = copy_str(base);
    if cs.len() == 0 {
        return copy_str(seg);
    }
    let last = cs[cs.len() - 1];
    let sep = if p == Platform::Windows {
        '\\'
    } else {
        '/'
    };
    if !(last == '/' || (p == Platform::Windows && last == '\\')) {
        crate::text::push_char(&mut r, sep);
    }
    r.append(seg);
    r
}

/// The part of a host name before its first dot.
pub open spec fn short_host(h: Seq<char>) -> Seq<char> {
    if h.contains('.') {
        h.subrange(0, choose|i: int| 0 <= i < h.len() && h[i] == '.' && forall|j: int| 0 <= j < i ==> h[j] != '.')
    } else {
        h
    }
}

pub fn short_hostname(h: &str) -> (r: String)
    ensures
        r@ == short_host(h@),
{
    let cs = chars_of(h);
    let mut i: usize = 0;
    while i < cs.len()
        invariant
            cs@ == h@,
            i <= cs@.len(),
            forall|j: int| 0 <= j < i ==> cs@[j] != '.',
        decreases cs@.len() - i,
    {
        if cs[i] == '.' {
            proof {
                let c = choose|c: int| 0 <= c < h@.len() && h@[c] == '.' && forall|j: int| 0 <= j < c ==> h@[j] != '.';
                if c < i {
                } else if c > i {
                    assert(h@[i as int] != '.');
                }
            }
            return string_of(&cs, 0, i);
        }
        i += 1;
    }
    assert(!h@.contains('.'));
    string_of(&cs, 0, cs.len())
}

/// The shell the environment points at: a PowerShell marker first, then the
/// name in `SHELL`.
pub open spec fn shell_from_vars(vars: Map<Seq<char>, Seq<char>>) -> Option<Shell> {
    if vars.contains_key("PSModulePath"@) || vars.contains_key("POWERSHELL_DISTRIBUTION_CHANNEL"@) {
        Some(Shell::Pwsh)
    } else if vars.contains_key("SHELL"@) {
        let s = ascii_lower(vars["SHELL"@]);
        if contains_seq(s, "zsh"@) {
            Some(Shell::Zsh)
        } else if contains_seq(s, "bash"@) {
            Some(Shell::Bash)
        } else if contains_seq(s, "fish"@) {
            Some(Shell::Fish)
        } else {
            None
        }
    } else {
        None
    }
}

pub open spec fn contains_seq(s: Seq<char>, p: Seq<char>) -> bool {
    exists|i: int| 0 <= i && i + p.len() <= s.len() && #[trigger] s.subrange(i, i + p.len()) == p
}

fn matches_at(x: &Vec<char>, y: &Vec<char>, i: usize) -> (r: bool)
    requires
        i + y@.len() <= x@.len(),
    ensures
        r == (x@.subrange(i as int, i + y@.len()) == y@),
{
    let xn = x.len();
    let mut j: usize = 0;
    while j < y.len()
        invariant
            xn == x@.len(),
            i + y@.len() <= x@.len(),
            j <= y@.len(),
            forall|k: int| 0 <= k < j ==> x@[i + k] == y@[k],
        decreases y@.len() - j,
    {
        if x[i + j] != y[j] {
            assert(x@.subrange(i as int, i + y@.len())[j as int] != y@[j as int]);
            return false;
        }
        j += 1;
    }
    assert(x@.subrange(i as int, i + y@.len()) =~= y@);
    true
}

pub fn has_substring(s: &str, p: &str) -> (r: bool)
    ensures
        r == contains_seq(s@, p@),
{
    let x = chars_of(s);
    let y = chars_of(p);
    if y.len() > x.len() {
        return false;
    }
    let last = x.len() - y.len();
    let mut i: usize = 0;
    let xn = x.len();
    while i <= last
        invariant
            xn == x@.len(),
            x@ == s@,
            y@ == p@,
            last == x@.len() - y@.len(),
            i <= last + 1,
            forall|k: int| 0 <= k < i ==> #[trigger] x@.subrange(k, k + y@.len()) != y@,
        decreases last + 1 - i,
    {
        if matches_at(&x, &y, i) {
            return true;
        }
        if i == last {
            return false;
        }
        i += 1;
    }
    false
}

pub fn detect_shell(vars: &VarMap) -> (r: Option<Shell>)
    ensures
        r == shell_from_vars(vars@),
{
    if vars.contains_key("PSModulePath") || vars.contains_key("POWERSHELL_DISTRIBUTION_CHANNEL") {
        return Some(Shell::Pwsh);
    }
    match vars.get("SHELL") {
        Some(sh) => {
            let s = crate::text::lower_str(sh.as_str());
            if has_substring(s.as_str(), "zsh") {
                Some(Shell::Zsh)
            } else if has_substring(s.as_str(), "bash") {
                Some(Shell::Bash)
            } else if has_substring(s.as_str(), "fish") {
                Some(Shell::Fish)
            } else {
                None
            }
        },
        None => None,
    }
}

/// The host name the environment gives (`HOSTNAME`, then `COMPUTERNAME`),
/// shortened to its first label.
pub open spec fn host_from_vars(vars: Map<Seq<char>, Seq<char>>) -> Option<Seq<char>> {
    if vars.contains_key("HOSTNAME"@) && !is_blank(vars["HOSTNAME"@]) {
        Some(short_host(trim(vars["HOSTNAME"@])))
    } else if vars.contains_key("COMPUTERNAME"@) && !is_blank(vars["COMPUTERNAME"@]) {
        Some(short_host(trim(vars["COMPUTERNAME"@])))
    } else {
        None
    }
}

pub fn hostname_from_vars(vars: &VarMap) -> (r: Option<String>)
    ensures
        r matches Some(h) ==> host_from_vars(vars@) == Some(h@),
        r is None ==> host_from_vars(vars@) is None,
{
    if let Some(h) = vars.get("HOSTNAME") {
        let t = trim_str(h.as_str());
        if !t.as_str().is_empty() {
            return Some(short_hostname(t.as_str()));
        }
    }
    if let Some(h) = vars.get("COMPUTERNAME") {
        let t = trim_str(h.as_str());
        if !t.as_str().is_empty() {
            return Some(short_hostname(t.as_str()));
        }
    }
    None
}

impl ContextEnv {
    pub open spec fn spec_default_config_path(&self) -> Seq<char> {
        path_join(self.platform, path_join(self.platform, self.xdg_config_home@, "apogee"@), "config.toml"@)
    }

    /// `$XDG_CONFIG_HOME/apogee/config.toml`
    pub fn default_config_path(&self) -> (r: String)
        ensures
            r@ == self.spec_default_config_path(),
    {
        let d = join_path(self.platform, self.xdg_config_home.as_str(), "apogee");
        join_path(self.platform, d.as_str(), "config.toml")
    }

    pub fn host(&self) -> (r: &String)
        ensures
            r == &self.host,
    {
        &self.host
    }

    pub fn config_dir(&self) -> (r: Option<&String>)
        ensures
            r matches Some(d) ==> self.config_dir == Some(*d),
            r is None ==> self.config_dir is None,
    {
        self.config_dir.as_ref()
    }

    pub fn config_path(&self) -> (r: Option<&String>)
        ensures
            r matches Some(d) ==> self.config_path == Some(*d),
            r is None ==> self.config_path is None,
    {
        self.config_path.as_ref()
    }
}

pub open spec fn set_if_missing(m: Map<Seq<char>, Seq<char>>, k: Seq<char>, v: Seq<char>) -> Map<Seq<char>, Seq<char>> {
    if m.contains_key(k) {
        m
    } else {
        m.insert(k, v)
    }
}

/// `XDG_CONFIG_HOME` where it is set and not blank, else `~/.config`.
pub open spec fn xdg_config_of(p: Platform, vars: Map<Seq<char>, Seq<char>>, home: Seq<char>) -> Seq<char> {
    if vars.contains_key("XDG_CONFIG_HOME"@) && trim(vars["XDG_CONFIG_HOME"@]).len() > 0 {
        trim(vars["XDG_CONFIG_HOME"@])
    } else {
        path_join(p, home, ".config"@)
    }
}

pub open spec fn base_vars(p: Platform, env: Map<Seq<char>, Seq<char>>, home: Seq<char>) -> Map<Seq<char>, Seq<char>> {
    let v = set_if_missing(set_if_missing(env, "HOME"@, home), "USERPROFILE"@, home);
    v.insert("XDG_CONFIG_HOME"@, xdg_config_of(p, v, home))
}

impl ContextEnv {
    /// The context of a run from the environment, the home directory, the
    /// platform and the host name: `HOME` and `USERPROFILE` filled where
    /// missing, `XDG_CONFIG_HOME` settled, the shell read from the
    /// environment, and `APOGEE_PLATFORM`, `APOGEE_SHELL`, `APOGEE_HOST` set.
    pub fn from_parts(env: &VarMap, home: &str, platform: Platform, host: &str) -> (r: ContextEnv)
        ensures
            r.home@ == home@,
            r.platform == platform,
            r.host@ == host@,
            r.xdg_config_home@ == xdg_config_of(platform, set_if_missing(set_if_missing(env@, "HOME"@, home@), "USERPROFILE"@, home@), home@),
            r.shell_type == shell_from_vars(base_vars(platform, env@, home@)),
            r.config_path is None,
            r.config_dir is None,
            r.vars@ == ({
                let b = base_vars(platform, env@, home@).insert("APOGEE_PLATFORM"@, crate::config::platform_name(platform));
                let s = match shell_from_vars(base_vars(platform, env@, home@)) {
                    Some(sh) => b.insert("APOGEE_SHELL"@, crate::config::shell_name(sh)),
                    None => b,
                };
                s.insert("APOGEE_HOST"@, host@)
            }),
    {
        let mut vars = env.duplicate();
        assert(vars@ == env@);
        if !vars.contains_key("HOME") {
            vars.insert("HOME", home);
        }
        if !vars.contains_key("USERPROFILE") {
            vars.insert("USERPROFILE", home);
        }
        let xdg = match vars.get("XDG_CONFIG_HOME") {
            Some(x) => {
                let t = trim_str(x.as_str());
                if t.as_str().is_empty() {
                    join_path(platform, home, ".config")
                } else {
                    t
                }
            },
            None => join_path(platform, home, ".config"),
        };
        vars.insert("XDG_CONFIG_HOME", xdg.as_str());
        let shell_type = detect_shell(&vars);
        vars.insert("APOGEE_PLATFORM", platform.name());
        if let Some(sh) = shell_type {
            vars.insert("APOGEE_SHELL", sh.name());
        }
        vars.insert("APOGEE_HOST", host);
        ContextEnv {
            vars,
            home: copy_str(home),
            xdg_config_home: xdg,
            platform,
            shell_type,
            host: copy_str(host),
            config_path: None,
            config_dir: None,
        }
    }

    /// Records where the configuration was found: its path and directory,
    /// also as `APOGEE_CONFIG` and `APOGEE_CONFIG_DIR`.
    pub fn set_config_path(&mut self, path: &str, dir: Option<&str>)
        ensures
            final(self).config_path matches Some(p) && p@ == path@,
            final(self).config_dir matches Some(d) ==> dir matches Some(x) && d@ == x@,
            final(self).config_dir is None ==> dir is None,
            final(self).vars@ == ({
                let v = old(self).vars@.insert("APOGEE_CONFIG"@, path@);
                match dir {
                    Some(d) => v.insert("APOGEE_CONFIG_DIR"@, d@),
                    None => v,
                }
            }),
            final(self).home == old(self).home,
            final(self).platform == old(self).platform,
            final(self).host == old(self).host,
            final(self).shell_type == old(self).shell_type,
            final(self).xdg_config_home == old(self).xdg_config_home,
    {
        self.config_path = Some(copy_str(path));
        self.vars.insert("APOGEE_CONFIG", path);
        match dir {
            Some(d) => {
                self.config_dir = Some(copy_str(d));
                self.vars.insert("APOGEE_CONFIG_DIR", d);
            },
            None => {
                self.config_dir = None;
            },
        }
    }
}

} // verus!
