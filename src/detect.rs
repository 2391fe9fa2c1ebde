//! Presence detection: environment variables, commands on PATH or in the
//! platform's usual places, and files or directories by pattern.

use vstd::prelude::*;
use crate::config::Platform;
use crate::context::{is_sep, join_path, path_join};
use crate::emit::looks_like_path;
use crate::error::Error;
use crate::outside::{regex_compiles, regex_is_match, regex_matches};
use crate::resolve::{env_nonempty, Vars};
use crate::text::{ascii_lower, chars_of, copy_str, has_char, lex_lt, less_than, lower_str, push_char, string_of, trim, trim_str};
use crate::varmap::VarMap;
use crate::quote::{escape_with, lemma_escape_step};
use crate::resolve::{resolve_from, token_value_of, ResolveFail, Resolver, resolve_error, opt_view};
use crate::context::ContextEnv;
use crate::config::{DetectBlock};

verus! {

pub open spec fn strs(v: Seq<String>) -> Seq<Seq<char>> {
    v.map_values(|s: String| s@)
}

/// The first candidate variable that is set and not blank, with its trimmed value.
pub open spec fn first_env_from(vars: Vars, keys: Seq<Seq<char>>, i: int) -> Option<(Seq<char>, Seq<char>)>
    decreases keys.len() - i,
{
    if i < 0 || i >= keys.len() {
        None
    } else if env_nonempty(vars, keys[i]) is Some {
        Some((keys[i], env_nonempty(vars, keys[i])->Some_0))
    } else {
        first_env_from(vars, keys, i + 1)
    }
}

pub fn first_present_env(vars: &VarMap, keys: &Vec<String>) -> (r: Option<(String, String)>)
    ensures
        r matches Some(p) ==> first_env_from(vars@, strs(keys@), 0) == Some((p.0@, p.1@)),
        r is None ==> first_env_from(vars@, strs(keys@), 0) is None,
{
    let mut i: usize = 0;
    while i < keys.len()
        invariant
            i <= keys@.len(),
            first_env_from(vars@, strs(keys@), 0) == first_env_from(vars@, strs(keys@), i as int),
        decreases keys@.len() - i,
    {
        if let Some(v) = vars.get(keys[i].as_str()) {
            let t = trim_str(v.as_str());
            if !t.as_str().is_empty() {
                return Some((keys[i].clone(), t));
            }
        }
        i += 1;
    }
    None
}

/// `s` cut at each `sep`.
pub open spec fn split_on(s: Seq<char>, sep: char) -> Seq<Seq<char>>
    decreases s.len(),
{
    if s.len() == 0 {
        seq![seq![]]
    } else {
        let parts = split_on(s.drop_last(), sep);
        if s.last() == sep {
            parts.push(seq![])
        } else {
            parts.update(parts.len() - 1, parts.last().push(s.last()))
        }
    }
}

proof fn lemma_split_nonempty(s: Seq<char>, sep: char)
    ensures
        split_on(s, sep).len() >= 1,
    decreases s.len(),
{
    if s.len() > 0 {
        lemma_split_nonempty(s.drop_last(), sep);
    }
}

/// The pieces trimmed, the blank ones left out.
pub open spec fn clean_parts(parts: Seq<Seq<char>>) -> Seq<Seq<char>>
    decreases parts.len(),
{
    if parts.len() == 0 {
        seq![]
    } else if trim(parts.last()).len() == 0 {
        clean_parts(parts.drop_last())
    } else {
        clean_parts(parts.drop_last()).push(trim(parts.last()))
    }
}

pub fn split_clean(s: &str, sep: char) -> (r: Vec<String>)
    ensures
        strs(r@) == clean_parts(split_on(s@, sep)),
{
    let cs = chars_of(s);
    let mut parts: Vec<String> = Vec::new();
    let mut cur = String::new();
    let mut i: usize = 0;
    assert(cs@.subrange(0, 0) =~= Seq::<char>::empty());
    while i < cs.len()
        invariant
            cs@ == s@,
            i <= cs@.len(),
            strs(parts@).push(cur@) == split_on(cs@.subrange(0, i as int), sep),
        decreases cs@.len() - i,
    {
        let ghost before = cs@.subrange(0, i as int);
        assert(cs@.subrange(0, i + 1).drop_last() =~= before);
        if cs[i] == sep {
            parts.push(cur);
            cur = String::new();
            assert(strs(parts@).push(cur@) =~= split_on(cs@.subrange(0, i + 1), sep));
        } else {
            let ghost old_parts = strs(parts@).push(cur@);
            push_char(&mut cur, cs[i]);
            assert(strs(parts@).push(cur@) =~= old_parts.update(old_parts.len() - 1, old_parts.last().push(cs@[i as int])));
        }
        i += 1;
    }
    assert(cs@.subrange(0, cs@.len() as int) =~= cs@);
    let ghost whole = strs(parts@).push(cur@);
    parts.push(cur);
    let ghost all = strs(parts@);
    assert(all =~= whole);
    let mut out: Vec<String> = Vec::new();
    let mut k: usize = 0;
    assert(all.subrange(0, 0) =~= Seq::<Seq<char>>::empty());
    while k < parts.len()
        invariant
            all == strs(parts@),
            k <= parts@.len(),
            strs(out@) == clean_parts(all.subrange(0, k as int)),
        decreases parts@.len() - k,
    {
        assert(all.subrange(0, k + 1).drop_last() =~= all.subrange(0, k as int));
        let t = trim_str(parts[k].as_str());
        if !t.as_str().is_empty() {
            out.push(t);
            assert(strs(out@) =~= clean_parts(all.subrange(0, k + 1)));
        }
        k += 1;
    }
    assert(all.subrange(0, parts@.len() as int) =~= all);
    out
}

pub open spec fn default_exts() -> Seq<Seq<char>> {
    seq![".com"@, ".exe"@, ".bat"@, ".cmd"@]
}

/// One PATHEXT entry: with a leading dot, in lower case.
pub open spec fn norm_ext(p: Seq<char>) -> Seq<char> {
    if p.len() > 0 && p[0] == '.' {
        ascii_lower(p)
    } else {
        ascii_lower(seq!['.'] + p)
    }
}

/// The executable extensions to try on Windows, in order.
/// (An unset PATHEXT stands for `.COM;.EXE;.BAT;.CMD`, which normalises to
/// the defaults.)
pub open spec fn pathext_of(vars: Vars) -> Seq<Seq<char>> {
    let parts = if vars.contains_key("PATHEXT"@) {
        clean_parts(split_on(vars["PATHEXT"@], ';'))
    } else {
        seq![]
    };
    if parts.len() == 0 {
        default_exts()
    } else {
        parts.map_values(|p: Seq<char>| norm_ext(p))
    }
}

pub fn pathext_list(vars: &VarMap) -> (r: Vec<String>)
    ensures
        strs(r@) == pathext_of(vars@),
{
    let parts = match vars.get("PATHEXT") {
        Some(v) => split_clean(v.as_str(), ';'),
        None => Vec::new(),
    };
    let mut out: Vec<String> = Vec::new();
    if parts.len() == 0 {
        out.push(copy_str(".com"));
        out.push(copy_str(".exe"));
        out.push(copy_str(".bat"));
        out.push(copy_str(".cmd"));
        assert(strs(out@) =~= default_exts());
        return out;
    }
    let mut i: usize = 0;
    while i < parts.len()
        invariant
            i <= parts@.len(),
            out@.len() == i,
            forall|k: int| 0 <= k < i ==> (#[trigger] out@[k])@ == norm_ext(parts@[k]@),
        decreases parts@.len() - i,
    {
        let p = &parts[i];
        let cs = chars_of(p.as_str());
        let e = if cs.len() > 0 && cs[0] == '.' {
            lower_str(p.as_str())
        } else {
            let mut d = String::new();
            push_char(&mut d, '.');
            d.append(p.as_str());
            assert(d@ =~= seq!['.'] + p@);
            lower_str(d.as_str())
        };
        out.push(e);
        i += 1;
    }
    assert(strs(out@) =~= pathext_of(vars@));
    out
}

pub open spec fn opt_get(vars: Vars, k: Seq<char>) -> Option<Seq<char>> {
    if vars.contains_key(k) {
        Some(vars[k])
    } else {
        None
    }
}

pub open spec fn path_sep(p: Platform) -> char {
    if p == Platform::Windows {
        ';'
    } else {
        ':'
    }
}

/// PATH as the platform names it (`Path` on Windows), else either spelling.
pub open spec fn path_value(p: Platform, vars: Vars) -> Option<Seq<char>> {
    let primary = if p == Platform::Windows {
        "Path"@
    } else {
        "PATH"@
    };
    if vars.contains_key(primary) {
        Some(vars[primary])
    } else if vars.contains_key("PATH"@) {
        Some(vars["PATH"@])
    } else {
        opt_get(vars, "Path"@)
    }
}

pub fn get_path_value(p: Platform, vars: &VarMap) -> (r: Option<String>)
    ensures
        crate::resolve::opt_view(r) == path_value(p, vars@),
{
    let primary = if p == Platform::Windows {
        "Path"
    } else {
        "PATH"
    };
    if let Some(v) = vars.get(primary) {
        return Some(v.clone());
    }
    if let Some(v) = vars.get("PATH") {
        return Some(v.clone());
    }
    match vars.get("Path") {
        Some(v) => Some(v.clone()),
        None => None,
    }
}

/// The directories PATH lists, trimmed, blank entries left out.
pub open spec fn path_dirs(p: Platform, vars: Vars) -> Seq<Seq<char>> {
    match path_value(p, vars) {
        Some(v) => clean_parts(split_on(v, path_sep(p))),
        None => seq![],
    }
}

pub fn path_dir_list(p: Platform, vars: &VarMap) -> (r: Vec<String>)
    ensures
        strs(r@) == path_dirs(p, vars@),
{
    let sep = if p == Platform::Windows {
        ';'
    } else {
        ':'
    };
    match get_path_value(p, vars) {
        Some(v) => split_clean(v.as_str(), sep),
        None => {
            let r: Vec<String> = Vec::new();
            assert(strs(r@) =~= seq![]);
            r
        },
    }
}

pub open spec fn home_of(vars: Vars) -> Seq<char> {
    if vars.contains_key("HOME"@) {
        vars["HOME"@]
    } else if vars.contains_key("USERPROFILE"@) {
        vars["USERPROFILE"@]
    } else {
        seq![]
    }
}

pub open spec fn user_of(vars: Vars) -> Option<Seq<char>> {
    if vars.contains_key("USERNAME"@) {
        Some(vars["USERNAME"@])
    } else {
        opt_get(vars, "USER"@)
    }
}

pub open spec fn unix_dirs(p: Platform) -> Seq<Seq<char>> {
    if p == Platform::Mac {
        seq!["/opt/homebrew/bin"@, "/usr/local/bin"@, "/usr/bin"@, "/bin"@, "/usr/sbin"@, "/sbin"@]
    } else {
        seq!["/usr/local/sbin"@, "/usr/local/bin"@, "/usr/sbin"@, "/usr/bin"@, "/sbin"@, "/bin"@]
    }
}

/// The usual places of commands on each platform, before duplicates are dropped.
pub open spec fn raw_fallback_dirs(p: Platform, vars: Vars) -> Seq<Seq<char>> {
    let home = home_of(vars);
    if p == Platform::Windows {
        let hd = if home.len() > 0 {
            seq![
                path_join(p, path_join(p, home, ".cargo"@), "bin"@),
                path_join(p, path_join(p, home, "scoop"@), "shims"@),
                path_join(p, path_join(p, path_join(p, path_join(p, home, "AppData"@), "Local"@), "Microsoft"@), "WindowsApps"@),
            ]
        } else {
            seq![]
        };
        let pf = if vars.contains_key("ProgramFiles"@) && trim(vars["ProgramFiles"@]).len() > 0 {
            seq![path_join(p, path_join(p, vars["ProgramFiles"@], "Git"@), "cmd"@)]
        } else {
            seq![]
        };
        seq!["C:\\Windows\\System32"@, "C:\\Windows"@] + hd + pf
    } else {
        let hd = if home.len() > 0 {
            seq![path_join(p, home, ".local/bin"@), path_join(p, home, ".cargo/bin"@)]
        } else {
            seq![]
        };
        let wsl = if p == Platform::Wsl && user_of(vars) is Some && trim(user_of(vars)->Some_0).len() > 0 {
            let u = user_of(vars)->Some_0;
            seq!["/mnt/c/Users/"@ + u + "/.cargo/bin"@, "/mnt/c/Users/"@ + u + "/scoop/shims"@]
        } else {
            seq![]
        };
        unix_dirs(p) + hd + wsl
    }
}

/// The first occurrence of each entry, in order.
pub open spec fn dedup(s: Seq<Seq<char>>) -> Seq<Seq<char>>
    decreases s.len(),
{
    if s.len() == 0 {
        seq![]
    } else if dedup(s.drop_last()).contains(s.last()) {
        dedup(s.drop_last())
    } else {
        dedup(s.drop_last()).push(s.last())
    }
}

pub open spec fn fallback_dirs(p: Platform, vars: Vars) -> Seq<Seq<char>> {
    dedup(raw_fallback_dirs(p, vars))
}

pub fn contains_str(v: &Vec<String>, s: &String) -> (r: bool)
    ensures
        r == strs(v@).contains(s@),
{
    let mut i: usize = 0;
    while i < v.len()
        invariant
            i <= v@.len(),
            forall|k: int| 0 <= k < i ==> strs(v@)[k] != s@,
        decreases v@.len() - i,
    {
        if v[i] == *s {
            assert(strs(v@)[i as int] == s@);
            return true;
        }
        i += 1;
    }
    false
}

pub fn dedup_strings(v: &Vec<String>) -> (r: Vec<String>)
    ensures
        strs(r@) == dedup(strs(v@)),
{
    let ghost all = strs(v@);
    let mut out: Vec<String> = Vec::new();
    let mut i: usize = 0;
    assert(all.subrange(0, 0) =~= Seq::<Seq<char>>::empty());
    while i < v.len()
        invariant
            all == strs(v@),
            i <= v@.len(),
            strs(out@) == dedup(all.subrange(0, i as int)),
        decreases v@.len() - i,
    {
        assert(all.subrange(0, i + 1).drop_last() =~= all.subrange(0, i as int));
        if !contains_str(&out, &v[i]) {
            out.push(v[i].clone());
            assert(strs(out@) =~= dedup(all.subrange(0, i + 1)));
        }
        i += 1;
    }
    assert(all.subrange(0, v@.len() as int) =~= all);
    out
}

pub fn fallback_command_dirs(p: Platform, vars: &VarMap) -> (r: Vec<String>)
    ensures
        strs(r@) == fallback_dirs(p, vars@),
{
    let mut out: Vec<String> = Vec::new();
    let home = match vars.get("HOME") {
        Some(h) => h.clone(),
        None => match vars.get("USERPROFILE") {
            Some(h) => h.clone(),
            None => String::new(),
        },
    };
    let has_home = !home.as_str().is_empty();
    match p {
        Platform::Windows => {
            out.push(copy_str("C:\\Windows\\System32"));
            out.push(copy_str("C:\\Windows"));
            if has_home {
                let c = join_path(p, home.as_str(), ".cargo");
                out.push(join_path(p, c.as_str(), "bin"));
                let s = join_path(p, home.as_str(), "scoop");
                out.push(join_path(p, s.as_str(), "shims"));
                let a = join_path(p, home.as_str(), "AppData");
                let l = join_path(p, a.as_str(), "Local");
                let m = join_path(p, l.as_str(), "Microsoft");
                out.push(join_path(p, m.as_str(), "WindowsApps"));
            }
            if let Some(pf) = vars.get("ProgramFiles") {
                let t = trim_str(pf.as_str());
                if !t.as_str().is_empty() {
                    let g = join_path(p, pf.as_str(), "Git");
                    out.push(join_path(p, g.as_str(), "cmd"));
                }
            }
        },
        _ => {
            if p == Platform::Mac {
                out.push(copy_str("/opt/homebrew/bin"));
                out.push(copy_str("/usr/local/bin"));
                out.push(copy_str("/usr/bin"));
                out.push(copy_str("/bin"));
                out.push(copy_str("/usr/sbin"));
                out.push(copy_str("/sbin"));
            } else {
                out.push(copy_str("/usr/local/sbin"));
                out.push(copy_str("/usr/local/bin"));
                out.push(copy_str("/usr/sbin"));
                out.push(copy_str("/usr/bin"));
                out.push(copy_str("/sbin"));
                out.push(copy_str("/bin"));
            }
            if has_home {
                out.push(join_path(p, home.as_str(), ".local/bin"));
                out.push(join_path(p, home.as_str(), ".cargo/bin"));
            }
            if p == Platform::Wsl {
                let user = match vars.get("USERNAME") {
                    Some(u) => Some(u),
                    None => vars.get("USER"),
                };
                if let Some(u) = user {
                    let t = trim_str(u.as_str());
                    if !t.as_str().is_empty() {
                        let mut a = copy_str("/mnt/c/Users/");
                        a.append(u.as_str());
                        a.append("/.cargo/bin");
                        out.push(a);
                        let mut b = copy_str("/mnt/c/Users/");
                        b.append(u.as_str());
                        b.append("/scoop/shims");
                        out.push(b);
                    }
                }
            }
        },
    }
    assert(strs(out@) =~= raw_fallback_dirs(p, vars@));
    dedup_strings(&out)
}

/// The paths that stand for `cmd` in one directory: on Windows the name as
/// given where it has a dot, else the name with each extension.
pub open spec fn dir_candidates(p: Platform, exts: Seq<Seq<char>>, dir: Seq<char>, cmd: Seq<char>) -> Seq<Seq<char>> {
    if p == Platform::Windows && !cmd.contains('.') {
        exts.map_values(|e: Seq<char>| path_join(p, dir, cmd + e))
    } else {
        seq![path_join(p, dir, cmd)]
    }
}

pub open spec fn candidates_in(p: Platform, exts: Seq<Seq<char>>, dirs: Seq<Seq<char>>, cmd: Seq<char>) -> Seq<Seq<char>>
    decreases dirs.len(),
{
    if dirs.len() == 0 {
        seq![]
    } else {
        candidates_in(p, exts, dirs.drop_last(), cmd) + dir_candidates(p, exts, dirs.last(), cmd)
    }
}

/// Where a command may be, in the order of search: an explicit path as is;
/// else each PATH directory, then each usual directory.
pub open spec fn command_candidates_of(p: Platform, vars: Vars, cmd: Seq<char>) -> Seq<Seq<char>> {
    if looks_like_path(cmd) {
        seq![cmd]
    } else {
        candidates_in(p, pathext_of(vars), path_dirs(p, vars) + fallback_dirs(p, vars), cmd)
    }
}

pub fn command_candidates(p: Platform, vars: &VarMap, cmd: &str) -> (r: Vec<String>)
    ensures
        strs(r@) == command_candidates_of(p, vars@, cmd@),
{
    let mut out: Vec<String> = Vec::new();
    if has_char(cmd, '/') || has_char(cmd, '\\') {
        out.push(copy_str(cmd));
        assert(strs(out@) =~= seq![cmd@]);
        return out;
    }
    let exts = pathext_list(vars);
    let mut dirs = path_dir_list(p, vars);
    let mut fb = fallback_command_dirs(p, vars);
    let ghost d1 = strs(dirs@);
    dirs.append(&mut fb);
    let ghost all = strs(dirs@);
    assert(all =~= d1 + fallback_dirs(p, vars@));
    let dotted = has_char(cmd, '.');
    let mut i: usize = 0;
    assert(all.subrange(0, 0) =~= Seq::<Seq<char>>::empty());
    assert(strs(out@) =~= Seq::<Seq<char>>::empty());
    while i < dirs.len()
        invariant
            all == strs(dirs@),
            strs(exts@) == pathext_of(vars@),
            dotted == cmd@.contains('.'),
            i <= dirs@.len(),
            strs(out@) == candidates_in(p, pathext_of(vars@), all.subrange(0, i as int), cmd@),
        decreases dirs@.len() - i,
    {
        let ghost before = strs(out@);
        let dir = &dirs[i];
        if p == Platform::Windows && !dotted {
            let mut k: usize = 0;
            while k < exts.len()
                invariant
                    strs(exts@) == pathext_of(vars@),
                    k <= exts@.len(),
                    strs(out@) == before + strs(exts@).subrange(0, k as int).map_values(
                        |e: Seq<char>| path_join(p, dir@, cmd@ + e),
                    ),
                decreases exts@.len() - k,
            {
                let mut name = copy_str(cmd);
                name.append(exts[k].as_str());
                assert(name@ == cmd@ + strs(exts@)[k as int]);
                let ghost o = strs(out@);
                out.push(join_path(p, dir.as_str(), name.as_str()));
                assert(strs(out@) =~= o.push(path_join(p, dir@, cmd@ + strs(exts@)[k as int])));
                assert(strs(exts@).subrange(0, k + 1) =~= strs(exts@).subrange(0, k as int).push(strs(exts@)[k as int]));
                assert(strs(out@) =~= before + strs(exts@).subrange(0, k + 1).map_values(
                    |e: Seq<char>| path_join(p, dir@, cmd@ + e),
                ));
                k += 1;
            }
            assert(strs(exts@).subrange(0, exts@.len() as int) =~= strs(exts@));
        } else {
            out.push(join_path(p, dir.as_str(), cmd));
        }
        assert(all.subrange(0, i + 1).drop_last() =~= all.subrange(0, i as int));
        assert(strs(out@) =~= candidates_in(p, pathext_of(vars@), all.subrange(0, i + 1), cmd@));
        i += 1;
    }
    assert(all.subrange(0, dirs@.len() as int) =~= all);
    out
}

/// What the host has: paths that are files, paths that exist, and the
/// entries of directories that could be read.
#[derive(Debug, Clone, Default)]
pub struct HostView {
    pub files: Vec<String>,
    pub dirs: Vec<String>,
    pub existing: Vec<String>,
    pub listings: Vec<(String, Vec<String>)>,
}

pub open spec fn listing_from(l: Seq<(String, Vec<String>)>, d: Seq<char>, i: int) -> Option<Seq<Seq<char>>>
    decreases l.len() - i,
{
    if i < 0 || i >= l.len() {
        None
    } else if l[i].0@ == d {
        Some(strs(l[i].1@))
    } else {
        listing_from(l, d, i + 1)
    }
}

impl HostView {
    pub open spec fn is_file(&self, p: Seq<char>) -> bool {
        strs(self.files@).contains(p)
    }

    pub open spec fn is_dir(&self, p: Seq<char>) -> bool {
        strs(self.dirs@).contains(p)
    }

    pub fn has_dir(&self, p: &String) -> (r: bool)
        ensures
            r == self.is_dir(p@),
    {
        contains_str(&self.dirs, p)
    }

    pub open spec fn path_exists(&self, p: Seq<char>) -> bool {
        strs(self.existing@).contains(p)
    }

    /// The entries of directory `d`, where it is a directory that could be read.
    pub open spec fn listing(&self, d: Seq<char>) -> Option<Seq<Seq<char>>> {
        listing_from(self.listings@, d, 0)
    }

    pub fn has_file(&self, p: &String) -> (r: bool)
        ensures
            r == self.is_file(p@),
    {
        contains_str(&self.files, p)
    }

    pub fn has_path(&self, p: &String) -> (r: bool)
        ensures
            r == self.path_exists(p@),
    {
        contains_str(&self.existing, p)
    }

    pub fn list(&self, d: &String) -> (r: Option<&Vec<String>>)
        ensures
            r matches Some(v) ==> self.listing(d@) == Some(strs(v@)),
            r is None ==> self.listing(d@) is None,
    {
        let mut i: usize = 0;
        while i < self.listings.len()
            invariant
                i <= self.listings@.len(),
                self.listing(d@) == listing_from(self.listings@, d@, i as int),
            decreases self.listings@.len() - i,
        {
            if self.listings[i].0 == *d {
                return Some(&self.listings[i].1);
            }
            i += 1;
        }
        None
    }
}

/// The first candidate that is a file.
pub open spec fn first_file_from(h: HostView, c: Seq<Seq<char>>, i: int) -> Option<Seq<char>>
    decreases c.len() - i,
{
    if i < 0 || i >= c.len() {
        None
    } else if h.is_file(c[i]) {
        Some(c[i])
    } else {
        first_file_from(h, c, i + 1)
    }
}

/// Locates a command: the first of its candidates that is a file.
pub fn resolve_command(p: Platform, vars: &VarMap, h: &HostView, cmd: &str) -> (r: Option<String>)
    ensures
        crate::resolve::opt_view(r) == first_file_from(*h, command_candidates_of(p, vars@, cmd@), 0),
{
    let c = command_candidates(p, vars, cmd);
    let ghost cv = strs(c@);
    let mut i: usize = 0;
    while i < c.len()
        invariant
            cv == strs(c@),
            cv == command_candidates_of(p, vars@, cmd@),
            i <= c@.len(),
            first_file_from(*h, cv, 0) == first_file_from(*h, cv, i as int),
        decreases c@.len() - i,
    {
        if h.has_file(&c[i]) {
            let f = c[i].clone();
            assert(f@ == cv[i as int]);
            assert(h.is_file(cv[i as int]));
            assert(first_file_from(*h, cv, i as int) == Some(cv[i as int]));
            return Some(f);
        }
        i += 1;
    }
    None
}

/// How a glob character reads as a regular expression.
pub open spec fn glob_escape(c: char) -> Seq<char> {
    if c == '*' {
        seq!['.', '*']
    } else if c == '?' {
        seq!['.']
    } else if c == '.' || c == '+' || c == '(' || c == ')' || c == '|' || c == '^' || c == '$'
        || c == '{' || c == '}' || c == '[' || c == ']' || c == '\\' {
        seq!['\\', c]
    } else {
        seq![c]
    }
}

/// The anchored regular expression of a one-segment glob.
pub open spec fn glob_regex(g: Seq<char>) -> Seq<char> {
    seq!['^'] + escape_with(g, |c: char| glob_escape(c)) + seq!['$']
}

pub fn glob_to_regex(glob: &str) -> (r: String)
    ensures
        r@ == glob_regex(glob@),
{
    let cs = chars_of(glob);
    let mut out = String::new();
    push_char(&mut out, '^');
    let mut i: usize = 0;
    let ghost f = |c: char| glob_escape(c);
    while i < cs.len()
        invariant
            cs@ == glob@,
            i <= cs@.len(),
            f == (|c: char| glob_escape(c)),
            out@ == seq!['^'] + escape_with(cs@.subrange(0, i as int), f),
        decreases cs@.len() - i,
    {
        let ghost o = out@;
        let c = cs[i];
        if c == '*' {
            push_char(&mut out, '.');
            push_char(&mut out, '*');
        } else if c == '?' {
            push_char(&mut out, '.');
        } else if c == '.' || c == '+' || c == '(' || c == ')' || c == '|' || c == '^' || c == '$'
            || c == '{' || c == '}' || c == '[' || c == ']' || c == '\\' {
            push_char(&mut out, '\\');
            push_char(&mut out, c);
        } else {
            push_char(&mut out, c);
        }
        proof {
            assert(out@ =~= o + glob_escape(c));
            lemma_escape_step(cs@, i as int, f);
            assert(out@ =~= seq!['^'] + escape_with(cs@.subrange(0, i + 1), f));
        }
        i += 1;
    }
    push_char(&mut out, '$');
    assert(cs@.subrange(0, cs@.len() as int) =~= cs@);
    out
}

pub open spec fn last_slash_before(plat: Platform, p: Seq<char>, i: int) -> int
    decreases i,
{
    if i <= 0 || i > p.len() {
        -1
    } else if is_sep(plat, p[i - 1]) {
        i - 1
    } else {
        last_slash_before(plat, p, i - 1)
    }
}

/// A path cut into its directory and its last segment, at the last
/// separator of the platform.
pub open spec fn split_dir(plat: Platform, p: Seq<char>) -> (Seq<char>, Seq<char>) {
    let k = last_slash_before(plat, p, p.len() as int);
    if k < 0 || k >= p.len() {
        (seq![], p)
    } else if k == 0 {
        (seq![p[0]], p.subrange(1, p.len() as int))
    } else {
        (p.subrange(0, k), p.subrange(k + 1, p.len() as int))
    }
}

pub fn split_dir_and_glob(plat: Platform, p: &str) -> (r: (String, String))
    ensures
        (r.0@, r.1@) == split_dir(plat, p@),
{
    let cs = chars_of(p);
    let mut i = cs.len();
    while i > 0 && !(cs[i - 1] == '/' || (plat == Platform::Windows && cs[i - 1] == '\\'))
        invariant
            cs@ == p@,
            i <= cs@.len(),
            last_slash_before(plat, p@, p@.len() as int) == last_slash_before(plat, p@, i as int),
        decreases i,
    {
        i -= 1;
    }
    if i == 0 {
        (String::new(), copy_str(p))
    } else if i == 1 {
        (string_of(&cs, 0, 1), string_of(&cs, 1, cs.len()))
    } else {
        (string_of(&cs, 0, i - 1), string_of(&cs, i, cs.len()))
    }
}

pub open spec fn has_glob(p: Seq<char>) -> bool {
    p.contains('*') || p.contains('?')
}

/// The position of the least name, by code points, among the first `k`
/// whose hit is set.
pub open spec fn least_hit_upto(names: Seq<Seq<char>>, hits: Seq<bool>, k: nat) -> Option<int>
    decreases k,
{
    if k == 0 || k > names.len() || k > hits.len() {
        None
    } else {
        let prev = least_hit_upto(names, hits, (k - 1) as nat);
        if hits[k - 1] && (prev is None || lex_lt(names[k - 1], names[prev->Some_0])) {
            Some(k - 1)
        } else {
            prev
        }
    }
}

/// Which names a regular expression matches.
pub open spec fn regex_hits(re: Seq<char>, names: Seq<Seq<char>>) -> Seq<bool> {
    Seq::new(names.len(), |i: int| regex_is_match(re, names[i]))
}

/// The least of the names whose hit is set: the first match of a listing
/// in sorted order.
pub fn least_matching(names: &Vec<String>, hits: &Vec<bool>) -> (r: Option<usize>)
    requires
        hits@.len() == names@.len(),
    ensures
        r matches Some(b) ==> b < names@.len() && least_hit_upto(strs(names@), hits@, names@.len() as nat) == Some(b as int),
        r is None ==> least_hit_upto(strs(names@), hits@, names@.len() as nat) is None,
{
    let ghost nv = strs(names@);
    let mut best: Option<usize> = None;
    let mut i: usize = 0;
    while i < names.len()
        invariant
            nv == strs(names@),
            hits@.len() == names@.len(),
            i <= names@.len(),
            best matches Some(b) ==> b < i && least_hit_upto(nv, hits@, i as nat) == Some(b as int),
            best is None ==> least_hit_upto(nv, hits@, i as nat) is None,
        decreases names@.len() - i,
    {
        assert(nv[i as int] == names@[i as int]@);
        if let Some(b) = best {
            assert(nv[b as int] == names@[b as int]@);
        }
        let better = match best {
            None => true,
            Some(b) => less_than(names[i].as_str(), names[b].as_str()),
        };
        if hits[i] && better {
            best = Some(i);
        }
        i += 1;
    }
    best
}

/// What a file or path pattern finds: a plain path where it exists; for a
/// glob in the last segment, the least matching entry of its directory.
/// `None` where the glob's regular expression does not compile.
pub open spec fn pattern_match(p: Platform, h: HostView, pat: Seq<char>) -> Option<Option<Seq<char>>> {
    if !has_glob(pat) {
        Some(
            if h.path_exists(pat) {
                Some(pat)
            } else {
                None
            },
        )
    } else {
        let (d, g) = split_dir(p, pat);
        match h.listing(d) {
            None => Some(None),
            Some(names) => if !regex_compiles(glob_regex(g)) {
                None
            } else {
                Some(
                    match least_hit_upto(names, regex_hits(glob_regex(g), names), names.len()) {
                        Some(i) => Some(path_join(p, d, names[i])),
                        None => None,
                    },
                )
            },
        }
    }
}

pub fn first_path_match(p: Platform, h: &HostView, pattern: &str) -> (r: Result<Option<String>, Error>)
    ensures
        pattern_match(p, *h, pattern@) matches Some(m) ==> (r matches Ok(o) && opt_view(o) == m),
        pattern_match(p, *h, pattern@) is None ==> (r matches Err(Error::InvalidRegex { pattern: x })
            && x@ == glob_regex(split_dir(p, pattern@).1)),
{
    if !has_char(pattern, '*') && !has_char(pattern, '?') {
        let p = copy_str(pattern);
        if h.has_path(&p) {
            return Ok(Some(p));
        }
        return Ok(None);
    }
    let (dir, glob) = split_dir_and_glob(p, pattern);
    let names = match h.list(&dir) {
        Some(n) => n,
        None => return Ok(None),
    };
    let re = glob_to_regex(glob.as_str());
    if regex_matches(re.as_str(), "").is_none() {
        return Err(Error::InvalidRegex { pattern: re });
    }
    let ghost nv = strs(names@);
    let mut hits: Vec<bool> = Vec::new();
    let mut i: usize = 0;
    while i < names.len()
        invariant
            nv == strs(names@),
            i <= names@.len(),
            regex_compiles(re@),
            hits@.len() == i,
            forall|k: int| 0 <= k < i ==> hits@[k] == regex_is_match(re@, #[trigger] nv[k]),
        decreases names@.len() - i,
    {
        let hit = match regex_matches(re.as_str(), names[i].as_str()) {
            Some(b) => b,
            None => false,
        };
        hits.push(hit);
        i += 1;
    }
    assert(hits@ =~= regex_hits(re@, nv));
    let best = least_matching(names, &hits);
    match best {
        Some(b) => {
            assert(nv[b as int] == names@[b as int]@);
            Ok(Some(join_path(p, dir.as_str(), names[b].as_str())))
        },
        None => Ok(None),
    }
}

/// Why detection stops with an error.
pub enum StepFail {
    /// A candidate does not resolve; the raw candidate.
    Resolve(ResolveFail, Seq<char>),
    /// A glob's regular expression does not compile.
    Regex(Seq<char>),
}

pub open spec fn step_error(f: StepFail, e: Error) -> bool {
    match f {
        StepFail::Resolve(rf, raw) => resolve_error(rf, raw, e),
        StepFail::Regex(x) => e matches Error::InvalidRegex { pattern } && pattern@ == x,
    }
}

/// Tokens as detection resolves them: no detection record yet.
pub open spec fn detect_tokens(ctx: ContextEnv, vars: Vars) -> spec_fn(Seq<char>) -> Option<Seq<char>> {
    |t: Seq<char>| token_value_of(ctx, vars, None, t)
}

/// The first command candidate, resolved, that is found; with where.
pub open spec fn command_step(ctx: ContextEnv, vars: Vars, h: HostView, raws: Seq<Seq<char>>, i: int) -> Result<Option<(Seq<char>, Seq<char>)>, StepFail>
    decreases raws.len() - i,
{
    if i < 0 || i >= raws.len() {
        Ok(None)
    } else {
        match resolve_from(detect_tokens(ctx, vars), raws[i], 0) {
            Err(e) => Err(StepFail::Resolve(e, raws[i])),
            Ok(c) => match first_file_from(h, command_candidates_of(ctx.platform, vars, c), 0) {
                Some(f) => Ok(Some((c, f))),
                None => command_step(ctx, vars, h, raws, i + 1),
            },
        }
    }
}

/// The first pattern, resolved, that finds something; with what it found.
pub open spec fn pattern_step(ctx: ContextEnv, vars: Vars, h: HostView, raws: Seq<Seq<char>>, i: int) -> Result<Option<Seq<char>>, StepFail>
    decreases raws.len() - i,
{
    if i < 0 || i >= raws.len() {
        Ok(None)
    } else {
        match resolve_from(detect_tokens(ctx, vars), raws[i], 0) {
            Err(e) => Err(StepFail::Resolve(e, raws[i])),
            Ok(pat) => match pattern_match(ctx.platform, h, pat) {
                None => Err(StepFail::Regex(glob_regex(split_dir(ctx.platform, pat).1))),
                Some(Some(f)) => Ok(Some(f)),
                Some(None) => pattern_step(ctx, vars, h, raws, i + 1),
            },
        }
    }
}

/// The detection record of a module: the first strategy that succeeds, in
/// the order environment, command, file, path.
pub open spec fn detection_of(ctx: ContextEnv, vars: Vars, b: DetectBlock, h: HostView) -> Result<Option<Vars>, StepFail> {
    match first_env_from(vars, strs(b.env.any_of@), 0) {
        Some((k, v)) => Ok(Some(map!["env"@ => k, "path"@ => v])),
        None => match command_step(ctx, vars, h, strs(b.commands.any_of@), 0) {
            Err(e) => Err(e),
            Ok(Some((c, f))) => Ok(
                Some(map!["command"@ => c, "command_path"@ => f, "command_dir"@ => split_dir(ctx.platform, f).0]),
            ),
            Ok(None) => match pattern_step(ctx, vars, h, strs(b.files.spec_for(ctx.platform)), 0) {
                Err(e) => Err(e),
                Ok(Some(f)) => Ok(Some(map!["file"@ => f])),
                Ok(None) => match pattern_step(ctx, vars, h, strs(b.paths.spec_for(ctx.platform)), 0) {
                    Err(e) => Err(e),
                    Ok(Some(f)) => Ok(Some(map!["path"@ => f])),
                    Ok(None) => Ok(None),
                },
            },
        },
    }
}

fn find_command_step(ctx: &ContextEnv, vars: &VarMap, h: &HostView, raws: &Vec<String>) -> (r: Result<Option<(String, String)>, Error>)
    ensures
        command_step(*ctx, vars@, *h, strs(raws@), 0) matches Ok(o) ==> (r matches Ok(x) && (match o {
            Some(p) => x matches Some(q) && q.0@ == p.0 && q.1@ == p.1,
            None => x is None,
        })),
        command_step(*ctx, vars@, *h, strs(raws@), 0) matches Err(f) ==> (r matches Err(e)
            && step_error(f, e)),
{
    let res = Resolver::new(ctx, vars);
    let ghost rv = strs(raws@);
    let mut i: usize = 0;
    while i < raws.len()
        invariant
            rv == strs(raws@),
            i <= raws@.len(),
            res.ctx == ctx,
            res.env == vars,
            res.detect is None,
            command_step(*ctx, vars@, *h, rv, 0) == command_step(*ctx, vars@, *h, rv, i as int),
        decreases raws@.len() - i,
    {
        assert(res.token_fn() == detect_tokens(*ctx, vars@));
        assert(rv[i as int] == raws@[i as int]@);
        match res.resolve(raws[i].as_str()) {
            Err(e) => {
                return Err(e);
            },
            Ok(c) => {
                if let Some(f) = resolve_command(ctx.platform, vars, h, c.as_str()) {
                    return Ok(Some((c, f)));
                }
            },
        }
        i += 1;
    }
    Ok(None)
}

fn find_pattern_step(ctx: &ContextEnv, vars: &VarMap, h: &HostView, raws: &Vec<String>) -> (r: Result<Option<String>, Error>)
    ensures
        pattern_step(*ctx, vars@, *h, strs(raws@), 0) matches Ok(o) ==> (r matches Ok(x) && opt_view(x) == o),
        pattern_step(*ctx, vars@, *h, strs(raws@), 0) matches Err(f) ==> (r matches Err(e)
            && step_error(f, e)),
{
    let res = Resolver::new(ctx, vars);
    let ghost rv = strs(raws@);
    let mut i: usize = 0;
    while i < raws.len()
        invariant
            rv == strs(raws@),
            i <= raws@.len(),
            res.ctx == ctx,
            res.env == vars,
            res.detect is None,
            pattern_step(*ctx, vars@, *h, rv, 0) == pattern_step(*ctx, vars@, *h, rv, i as int),
        decreases raws@.len() - i,
    {
        assert(res.token_fn() == detect_tokens(*ctx, vars@));
        assert(rv[i as int] == raws@[i as int]@);
        match res.resolve(raws[i].as_str()) {
            Err(e) => {
                return Err(e);
            },
            Ok(pat) => {
                match first_path_match(ctx.platform, h, pat.as_str()) {
                    Err(e) => return Err(e),
                    Ok(Some(f)) => return Ok(Some(f)),
                    Ok(None) => {},
                }
            },
        }
        i += 1;
    }
    Ok(None)
}

/// Runs the detection cascade of one module against the host's answers.
pub fn detect_module(ctx: &ContextEnv, vars: &VarMap, b: &DetectBlock, h: &HostView) -> (r: Result<Option<VarMap>, Error>)
    ensures
        detection_of(*ctx, vars@, *b, *h) matches Ok(o) ==> (r matches Ok(x) && (match o {
            Some(m) => x matches Some(d) && d@ == m,
            None => x is None,
        })),
        detection_of(*ctx, vars@, *b, *h) matches Err(f) ==> (r matches Err(e) && step_error(f, e)),
{
    let mut rec = VarMap::new();
    if let Some((k, v)) = first_present_env(vars, &b.env.any_of) {
        rec.insert("env", k.as_str());
        rec.insert("path", v.as_str());
        proof {
            reveal_strlit("env");
            reveal_strlit("path");
        }
        assert(rec@ =~= map!["env"@ => k@, "path"@ => v@]);
        return Ok(Some(rec));
    }
    match find_command_step(ctx, vars, h, &b.commands.any_of) {
        Err(e) => return Err(e),
        Ok(Some((c, f))) => {
            let (dir, _) = split_dir_and_glob(ctx.platform, f.as_str());
            rec.insert("command", c.as_str());
            rec.insert("command_path", f.as_str());
            rec.insert("command_dir", dir.as_str());
            proof {
                reveal_strlit("command");
                reveal_strlit("command_path");
                reveal_strlit("command_dir");
            }
            assert(rec@ =~= map!["command"@ => c@, "command_path"@ => f@, "command_dir"@ => dir@]);
            return Ok(Some(rec));
        },
        Ok(None) => {},
    }
    match find_pattern_step(ctx, vars, h, b.files.for_platform(ctx.platform)) {
        Err(e) => return Err(e),
        Ok(Some(f)) => {
            rec.insert("file", f.as_str());
            assert(rec@ =~= map!["file"@ => f@]);
            return Ok(Some(rec));
        },
        Ok(None) => {},
    }
    match find_pattern_step(ctx, vars, h, b.paths.for_platform(ctx.platform)) {
        Err(e) => Err(e),
        Ok(Some(f)) => {
            rec.insert("path", f.as_str());
            assert(rec@ =~= map!["path"@ => f@]);
            Ok(Some(rec))
        },
        Ok(None) => Ok(None),
    }
}

/// `s` cut at each line feed.
pub fn split_lines(s: &str) -> (r: Vec<String>)
    ensures
        strs(r@) == split_on(s@, '\n'),
{
    let cs = chars_of(s);
    let mut parts: Vec<String> = Vec::new();
    let mut cur = String::new();
    let mut i: usize = 0;
    assert(cs@.subrange(0, 0) =~= Seq::<char>::empty());
    while i < cs.len()
        invariant
            cs@ == s@,
            i <= cs@.len(),
            strs(parts@).push(cur@) == split_on(cs@.subrange(0, i as int), '\n'),
        decreases cs@.len() - i,
    {
        assert(cs@.subrange(0, i + 1).drop_last() =~= cs@.subrange(0, i as int));
        if cs[i] == '\n' {
            parts.push(cur);
            cur = String::new();
            assert(strs(parts@).push(cur@) =~= split_on(cs@.subrange(0, i + 1), '\n'));
        } else {
            let ghost old_parts = strs(parts@).push(cur@);
            push_char(&mut cur, cs[i]);
            assert(strs(parts@).push(cur@) =~= old_parts.update(old_parts.len() - 1, old_parts.last().push(cs@[i as int])));
        }
        i += 1;
    }
    assert(cs@.subrange(0, cs@.len() as int) =~= cs@);
    let ghost whole = strs(parts@).push(cur@);
    parts.push(cur);
    assert(strs(parts@) =~= whole);
    parts
}

/// Strategies go in a fixed order and the first success ends the cascade: a
/// module with a present environment candidate is reported through `env`,
/// whatever its commands, files or paths would find.
pub proof fn lemma_env_detection_first(ctx: ContextEnv, vars: Vars, b: DetectBlock, h: HostView)
    requires
        first_env_from(vars, strs(b.env.any_of@), 0) is Some,
    ensures
        detection_of(ctx, vars, b, h) == Ok::<Option<Vars>, StepFail>(Some(map![
            "env"@ => first_env_from(vars, strs(b.env.any_of@), 0)->Some_0.0,
            "path"@ => first_env_from(vars, strs(b.env.any_of@), 0)->Some_0.1,
        ])),
        !detection_of(ctx, vars, b, h)->Ok_0->Some_0.contains_key("command"@),
{
    reveal_strlit("command");
    reveal_strlit("env");
    reveal_strlit("path");
    assert("command"@.len() != "env"@.len());
    assert("command"@.len() != "path"@.len());
    assert("command"@ != "env"@);
    assert("command"@ != "path"@);
}

/// With PATHEXT unset, a Windows command without an extension is looked for
/// in each directory as `.com`, `.exe`, `.bat`, then `.cmd`, in lower case:
/// the first of these that is a file is the one recorded.
pub proof fn lemma_windows_default_extensions(vars: Vars, dir: Seq<char>, cmd: Seq<char>)
    requires
        !vars.contains_key("PATHEXT"@),
        !cmd.contains('.'),
    ensures
        dir_candidates(Platform::Windows, pathext_of(vars), dir, cmd) == seq![
            path_join(Platform::Windows, dir, cmd + ".com"@),
            path_join(Platform::Windows, dir, cmd + ".exe"@),
            path_join(Platform::Windows, dir, cmd + ".bat"@),
            path_join(Platform::Windows, dir, cmd + ".cmd"@),
        ],
{
    assert(dir_candidates(Platform::Windows, pathext_of(vars), dir, cmd) =~= seq![
        path_join(Platform::Windows, dir, cmd + ".com"@),
        path_join(Platform::Windows, dir, cmd + ".exe"@),
        path_join(Platform::Windows, dir, cmd + ".bat"@),
        path_join(Platform::Windows, dir, cmd + ".cmd"@),
    ]);
}

} // verus!
