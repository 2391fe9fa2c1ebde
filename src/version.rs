//! Version detection: what to run or read for each configured way, and how
//! a version is taken from what came back.

use vstd::prelude::*;
use crate::activate::{module_tokens, resolve_list};
use crate::config::{Platform, VersionDetect};
use crate::context::ContextEnv;
use crate::detect::strs;
use crate::error::Error;
use crate::outside::{regex_compiles, regex_group_one, regex_groups, regex_matches, regex_named_group};
use crate::resolve::{opt_view, or_else, resolve_from, Resolver};
use crate::text::{chars_of, copy_str, string_of, trim, trim_str};
use crate::varmap::VarMap;

verus! {

/// What a configured way of reading a version needs from the host.
#[derive(Debug, Clone)]
pub enum VersionProbe {
    /// Settled without the host.
    Done(Option<String>),
    /// Run a command and read its output.
    Run { command: String, args: Vec<String>, regex: Option<String>, capture: String },
    /// macOS: read a key of a bundle's property list.
    ReadPlist { path: String, key: String, regex: Option<String>, capture: String },
    /// Windows: read a version field of an executable.
    ReadFileVersion { path: String, field: String, regex: Option<String>, capture: String },
    /// Linux: read a key of a desktop entry file.
    ReadDesktopKey { path: String, section: String, key: String, regex: Option<String>, capture: String },
}

/// What the host gave back for a probe: nothing (it could not run, failed,
/// or found nothing), or text: a command's stdout and stderr, the metadata
/// value read, or a desktop entry file's contents (in `stdout`).
#[derive(Debug, Clone)]
pub enum ProbeOutcome {
    Failed,
    Output { stdout: String, stderr: String },
}

/// The text before the first line feed.
pub open spec fn first_line(t: Seq<char>) -> Seq<char> {
    if t.contains('\n') {
        t.subrange(0, crate::runtime::first_index_of(t, '\n'))
    } else {
        t
    }
}

/// The group named `capture` of the first match, else group 1.
pub open spec fn capture_of(re: Seq<char>, text: Seq<char>, capture: Seq<char>) -> Option<Seq<char>> {
    or_else(regex_named_group(re, text, capture), regex_group_one(re, text))
}

pub open spec fn regex_ok(regex: Option<Seq<char>>) -> bool {
    match regex {
        Some(re) => regex_compiles(re),
        None => true,
    }
}

/// A version from metadata text: `None` where the regex does not compile;
/// else the trimmed text, or the regex's capture in it.
pub open spec fn version_of_text(text: Seq<char>, regex: Option<Seq<char>>, capture: Seq<char>) -> Option<Option<Seq<char>>> {
    let t = trim(text);
    if !regex_ok(regex) {
        None
    } else if t.len() == 0 {
        Some(None)
    } else {
        match regex {
            None => Some(Some(t)),
            Some(re) => Some(capture_of(re, t, capture)),
        }
    }
}

/// A version from a command's output: `None` where the regex does not
/// compile; else stdout, or stderr where stdout is blank, trimmed; then the
/// regex's capture, or the first line.
pub open spec fn version_of_output(stdout: Seq<char>, stderr: Seq<char>, regex: Option<Seq<char>>, capture: Seq<char>) -> Option<Option<Seq<char>>> {
    let text = if trim(stdout).len() > 0 {
        trim(stdout)
    } else {
        trim(stderr)
    };
    if !regex_ok(regex) {
        None
    } else if text.len() == 0 {
        Some(None)
    } else {
        match regex {
            Some(re) => Some(capture_of(re, text, capture)),
            None => {
                let l = trim(first_line(text));
                Some(
                    if l.len() > 0 {
                        Some(l)
                    } else {
                        None
                    },
                )
            },
        }
    }
}

/// Fails where the regex does not compile.
fn check_regex(regex: &Option<String>) -> (r: Result<(), Error>)
    ensures
        r is Ok <==> regex_ok(opt_view(*regex)),
        r matches Err(e) ==> (e matches Error::InvalidRegex { pattern } && Some(pattern@) == opt_view(*regex)),
{
    match regex {
        Some(re) => {
            if regex_matches(re.as_str(), "").is_none() {
                return Err(Error::InvalidRegex { pattern: re.clone() });
            }
            Ok(())
        },
        None => Ok(()),
    }
}

fn capture_in(re: &String, text: &str, capture: &String) -> (r: Result<Option<String>, Error>)
    ensures
        regex_compiles(re@) ==> (r matches Ok(v) && opt_view(v) == capture_of(re@, text@, capture@)),
        !regex_compiles(re@) ==> (r matches Err(Error::InvalidRegex { pattern }) && pattern@ == re@),
{
    match regex_groups(re.as_str(), text, capture.as_str()) {
        Some((named, first)) => match named {
            Some(n) => Ok(Some(n)),
            None => Ok(first),
        },
        None => Err(Error::InvalidRegex { pattern: re.clone() }),
    }
}

pub fn copy_opt(o: &Option<String>) -> (r: Option<String>)
    ensures
        opt_view(r) == opt_view(*o),
{
    match o {
        Some(s) => Some(s.clone()),
        None => None,
    }
}

/// The version in metadata text; fails where the regex does not compile.
pub fn apply_optional_regex(text: &str, regex: &Option<String>, capture: &String) -> (r: Result<Option<String>, Error>)
    ensures
        version_of_text(text@, opt_view(*regex), capture@) matches Some(v) ==> (r matches Ok(x) && opt_view(x) == v),
        version_of_text(text@, opt_view(*regex), capture@) is None ==> (r matches Err(Error::InvalidRegex { pattern }) && Some(pattern@) == opt_view(*regex)),
{
    check_regex(regex)?;
    let t = trim_str(text);
    if t.as_str().is_empty() {
        return Ok(None);
    }
    match regex {
        None => Ok(Some(t)),
        Some(re) => capture_in(re, t.as_str(), capture),
    }
}

/// The version in a command's output; fails where the regex does not compile.
pub fn version_from_output(stdout: &str, stderr: &str, regex: &Option<String>, capture: &String) -> (r: Result<Option<String>, Error>)
    ensures
        version_of_output(stdout@, stderr@, opt_view(*regex), capture@) matches Some(v) ==> (r matches Ok(x) && opt_view(x) == v),
        version_of_output(stdout@, stderr@, opt_view(*regex), capture@) is None ==> (r matches Err(Error::InvalidRegex { pattern }) && Some(pattern@) == opt_view(*regex)),
{
    check_regex(regex)?;
    let o = trim_str(stdout);
    let text = if !o.as_str().is_empty() {
        o
    } else {
        trim_str(stderr)
    };
    if text.as_str().is_empty() {
        return Ok(None);
    }
    match regex {
        Some(re) => capture_in(re, text.as_str(), capture),
        None => {
            let cs = chars_of(text.as_str());
            let mut i: usize = 0;
            while i < cs.len() && cs[i] != '\n'
                invariant
                    cs@ == text@,
                    i <= cs@.len(),
                    forall|j: int| 0 <= j < i ==> cs@[j] != '\n',
                decreases cs@.len() - i,
            {
                i += 1;
            }
            proof {
                if i < cs@.len() {
                    let w = crate::runtime::first_index_of(text@, '\n');
                    assert(text@[i as int] == '\n');
                    if w < i {
                    } else if w > i {
                    }
                    assert(first_line(text@) == cs@.subrange(0, i as int));
                } else {
                    assert(!text@.contains('\n'));
                    assert(cs@.subrange(0, i as int) =~= cs@);
                }
            }
            let line = string_of(&cs, 0, i);
            let l = trim_str(line.as_str());
            if l.as_str().is_empty() {
                Ok(None)
            } else {
                Ok(Some(l))
            }
        },
    }
}

/// What version detection reads from the detection record: the path, else
/// the file, else the command.
pub open spec fn version_target(detect: Map<Seq<char>, Seq<char>>) -> Option<Seq<char>> {
    if detect.contains_key("path"@) {
        Some(detect["path"@])
    } else if detect.contains_key("file"@) {
        Some(detect["file"@])
    } else if detect.contains_key("command"@) {
        Some(detect["command"@])
    } else {
        None
    }
}

/// The regex a configured way carries, if any.
pub open spec fn vd_regex(vd: VersionDetect) -> Option<Seq<char>> {
    match vd {
        VersionDetect::Command { regex, .. } => opt_view(regex),
        VersionDetect::PathRegex { regex, .. } => Some(regex@),
        VersionDetect::MacBundlePlist { regex, .. } => opt_view(regex),
        VersionDetect::WindowsFileVersion { regex, .. } => opt_view(regex),
        VersionDetect::LinuxDesktopFileKey { regex, .. } => opt_view(regex),
    }
}

/// Why a plan fails.
pub enum PlanFail {
    /// The regex does not compile.
    Regex(Seq<char>),
    /// A value does not resolve.
    Resolve,
}

/// Where a plan fails, if it does: a bad regex first, whatever the platform;
/// then a value that does not resolve.
pub open spec fn plan_error(ctx: ContextEnv, vars: VarMap, detect: VarMap, vd: VersionDetect) -> Option<PlanFail> {
    let tv = module_tokens(ctx, vars@, detect@);
    if !regex_ok(vd_regex(vd)) {
        Some(PlanFail::Regex(vd_regex(vd)->Some_0))
    } else {
        match vd {
            VersionDetect::Command { command, args, .. } => if (!detect@.contains_key("command_path"@)
                && resolve_from(tv, command@, 0) is Err) || resolve_list(tv, strs(args@)) is None {
                Some(PlanFail::Resolve)
            } else {
                None
            },
            VersionDetect::PathRegex { .. } => None,
            VersionDetect::MacBundlePlist { path, .. } => if ctx.platform == Platform::Mac && resolve_from(tv, path@, 0) is Err {
                Some(PlanFail::Resolve)
            } else {
                None
            },
            VersionDetect::WindowsFileVersion { path, .. } => if ctx.platform == Platform::Windows && resolve_from(tv, path@, 0) is Err {
                Some(PlanFail::Resolve)
            } else {
                None
            },
            VersionDetect::LinuxDesktopFileKey { path, .. } => if (ctx.platform == Platform::Linux || ctx.platform == Platform::Wsl)
                && resolve_from(tv, path@, 0) is Err {
                Some(PlanFail::Resolve)
            } else {
                None
            },
        }
    }
}

/// The probe a plan that succeeds gives: every value handed to the host
/// resolved as configured, the regex and the capture as they are.
pub open spec fn plan_is(p: VersionProbe, ctx: ContextEnv, vars: VarMap, detect: VarMap, vd: VersionDetect) -> bool {
    let tv = module_tokens(ctx, vars@, detect@);
    match vd {
        VersionDetect::Command { command, args, regex, capture } => p matches VersionProbe::Run {
            command: c,
            args: a,
            regex: rg,
            capture: cp,
        } && c@ == (if detect@.contains_key("command_path"@) {
            detect@["command_path"@]
        } else {
            resolve_from(tv, command@, 0)->Ok_0
        }) && strs(a@) == resolve_list(tv, strs(args@))->Some_0 && opt_view(rg) == opt_view(regex) && cp@
            == capture@,
        VersionDetect::PathRegex { regex, capture } => p matches VersionProbe::Done(v) && opt_view(v) == (
        match version_target(detect@) {
            Some(t) => capture_of(regex@, t, capture@),
            None => None,
        }),
        VersionDetect::MacBundlePlist { path, key, regex, capture } => if ctx.platform != Platform::Mac {
            p matches VersionProbe::Done(v) && v is None
        } else {
            p matches VersionProbe::ReadPlist { path: pp, key: k, regex: rg, capture: cp } && pp@ == resolve_from(
                tv,
                path@,
                0,
            )->Ok_0 && k@ == key@ && opt_view(rg) == opt_view(regex) && cp@ == capture@
        },
        VersionDetect::WindowsFileVersion { path, field, regex, capture } => if ctx.platform
            != Platform::Windows {
            p matches VersionProbe::Done(v) && v is None
        } else {
            p matches VersionProbe::ReadFileVersion { path: pp, field: f, regex: rg, capture: cp } && pp@
                == resolve_from(tv, path@, 0)->Ok_0 && f@ == (match field {
                Some(x) => x@,
                None => "ProductVersion"@,
            }) && opt_view(rg) == opt_view(regex) && cp@ == capture@
        },
        VersionDetect::LinuxDesktopFileKey { path, section, key, regex, capture } => if ctx.platform
            != Platform::Linux && ctx.platform != Platform::Wsl {
            p matches VersionProbe::Done(v) && v is None
        } else {
            p matches VersionProbe::ReadDesktopKey { path: pp, section: sec, key: k, regex: rg, capture: cp }
                && pp@ == resolve_from(tv, path@, 0)->Ok_0 && sec@ == (match section {
                Some(x) => x@,
                None => "Desktop Entry"@,
            }) && k@ == key@ && opt_view(rg) == opt_view(regex) && cp@ == capture@
        },
    }
}

pub open spec fn is_resolve_error(e: Error) -> bool {
    e is UnclosedToken || e is EmptyToken || e is UnknownToken
}

/// Decides what one configured way of reading a version needs. A regex
/// that does not compile fails before anything runs; the path regex and
/// ways of other platforms are settled at once.
pub fn plan_version(ctx: &ContextEnv, vars: &VarMap, detect: &VarMap, vd: &VersionDetect) -> (r: Result<VersionProbe, Error>)
    ensures
        plan_error(*ctx, *vars, *detect, *vd) is None <==> r is Ok,
        r matches Ok(p) ==> plan_is(p, *ctx, *vars, *detect, *vd),
        plan_error(*ctx, *vars, *detect, *vd) matches Some(PlanFail::Regex(x)) ==> (r matches Err(
            Error::InvalidRegex { pattern },
        ) && pattern@ == x),
        plan_error(*ctx, *vars, *detect, *vd) matches Some(PlanFail::Resolve) ==> (r is Err
            && is_resolve_error(r->Err_0)),
{
    let res = Resolver::new(ctx, vars).with_detect(detect);
    assert(res.token_fn() == module_tokens(*ctx, vars@, detect@));
    match vd {
        VersionDetect::Command { command, args, regex, capture } => {
            check_regex(regex)?;
            let cmd = match detect.get("command_path") {
                Some(p) => p.clone(),
                None => res.resolve(command.as_str())?,
            };
            let a = crate::activate::resolve_each(&res, args)?;
            Ok(VersionProbe::Run { command: cmd, args: a, regex: copy_opt(regex), capture: capture.clone() })
        },
        VersionDetect::PathRegex { regex, capture } => {
            if regex_matches(regex.as_str(), "").is_none() {
                return Err(Error::InvalidRegex { pattern: regex.clone() });
            }
            let target = match detect.get("path") {
                Some(t) => t,
                None => match detect.get("file") {
                    Some(t) => t,
                    None => match detect.get("command") {
                        Some(t) => t,
                        None => return Ok(VersionProbe::Done(None)),
                    },
                },
            };
            let v = capture_in(regex, target.as_str(), capture)?;
            Ok(VersionProbe::Done(v))
        },
        VersionDetect::MacBundlePlist { path, key, regex, capture } => {
            check_regex(regex)?;
            if ctx.platform != Platform::Mac {
                return Ok(VersionProbe::Done(None));
            }
            let p = res.resolve(path.as_str())?;
            Ok(VersionProbe::ReadPlist { path: p, key: key.clone(), regex: copy_opt(regex), capture: capture.clone() })
        },
        VersionDetect::WindowsFileVersion { path, field, regex, capture } => {
            check_regex(regex)?;
            if ctx.platform != Platform::Windows {
                return Ok(VersionProbe::Done(None));
            }
            let p = res.resolve(path.as_str())?;
            let f = match field {
                Some(f) => f.clone(),
                None => copy_str("ProductVersion"),
            };
            Ok(VersionProbe::ReadFileVersion { path: p, field: f, regex: copy_opt(regex), capture: capture.clone() })
        },
        VersionDetect::LinuxDesktopFileKey { path, section, key, regex, capture } => {
            check_regex(regex)?;
            if ctx.platform != Platform::Linux && ctx.platform != Platform::Wsl {
                return Ok(VersionProbe::Done(None));
            }
            let p = res.resolve(path.as_str())?;
            let sec = match section {
                Some(s) => s.clone(),
                None => copy_str("Desktop Entry"),
            };
            Ok(VersionProbe::ReadDesktopKey { path: p, section: sec, key: key.clone(), regex: copy_opt(regex), capture: capture.clone() })
        },
    }
}

/// The version a probe gives for what the host gave back; `None` inside
/// `Some` where nothing was found. `None` where the regex does not compile.
pub open spec fn probe_version(p: VersionProbe, o: ProbeOutcome) -> Option<Option<Seq<char>>> {
    match p {
        VersionProbe::Done(v) => Some(opt_view(v)),
        VersionProbe::Run { regex, capture, .. } => match o {
            ProbeOutcome::Failed => if regex_ok(opt_view(regex)) {
                Some(None)
            } else {
                None
            },
            ProbeOutcome::Output { stdout, stderr } => version_of_output(stdout@, stderr@, opt_view(regex), capture@),
        },
        VersionProbe::ReadPlist { regex, capture, .. } => match o {
            ProbeOutcome::Failed => if regex_ok(opt_view(regex)) {
                Some(None)
            } else {
                None
            },
            ProbeOutcome::Output { stdout, .. } => version_of_text(stdout@, opt_view(regex), capture@),
        },
        VersionProbe::ReadFileVersion { regex, capture, .. } => match o {
            ProbeOutcome::Failed => if regex_ok(opt_view(regex)) {
                Some(None)
            } else {
                None
            },
            ProbeOutcome::Output { stdout, .. } => version_of_text(stdout@, opt_view(regex), capture@),
        },
        VersionProbe::ReadDesktopKey { section, key, regex, capture, .. } => match o {
            ProbeOutcome::Failed => if regex_ok(opt_view(regex)) {
                Some(None)
            } else {
                None
            },
            ProbeOutcome::Output { stdout, .. } => match desktop_scan(split_on_lines(stdout@), section@, key@, 0, false) {
                Some(raw) => version_of_text(raw, opt_view(regex), capture@),
                None => if regex_ok(opt_view(regex)) {
                    Some(None)
                } else {
                    None
                },
            },
        },
    }
}

pub fn version_from_probe(p: &VersionProbe, o: &ProbeOutcome) -> (r: Result<Option<String>, Error>)
    ensures
        probe_version(*p, *o) matches Some(v) ==> (r matches Ok(x) && opt_view(x) == v),
        probe_version(*p, *o) is None ==> r matches Err(Error::InvalidRegex { .. }),
{
    match p {
        VersionProbe::Done(v) => Ok(copy_opt(v)),
        VersionProbe::Run { regex, capture, .. } => match o {
            ProbeOutcome::Failed => {
                check_regex(regex)?;
                Ok(None)
            },
            ProbeOutcome::Output { stdout, stderr } => version_from_output(stdout.as_str(), stderr.as_str(), regex, capture),
        },
        VersionProbe::ReadPlist { regex, capture, .. } | VersionProbe::ReadFileVersion { regex, capture, .. } => match o {
            ProbeOutcome::Failed => {
                check_regex(regex)?;
                Ok(None)
            },
            ProbeOutcome::Output { stdout, .. } => apply_optional_regex(stdout.as_str(), regex, capture),
        },
        VersionProbe::ReadDesktopKey { section, key, regex, capture, .. } => match o {
            ProbeOutcome::Failed => {
                check_regex(regex)?;
                Ok(None)
            },
            ProbeOutcome::Output { stdout, .. } => match linux_desktop_key(stdout.as_str(), section.as_str(), key.as_str()) {
                Some(raw) => apply_optional_regex(raw.as_str(), regex, capture),
                None => {
                    check_regex(regex)?;
                    Ok(None)
                },
            },
        },
    }
}

/// Records a version found: the first way that gives one ends the search.
pub fn record_version(detect: &mut VarMap, v: Option<String>) -> (done: bool)
    ensures
        done == (v is Some),
        v matches Some(x) ==> final(detect)@ == old(detect)@.insert("version"@, x@),
        v is None ==> final(detect)@ == old(detect)@,
{
    match v {
        Some(x) => {
            detect.insert("version", x.as_str());
            true
        },
        None => false,
    }
}

/// The value of `key` in `[section]` of a desktop entry file: the first
/// non-empty one; nothing once a line of the section has no `=`.
pub open spec fn desktop_scan(lines: Seq<Seq<char>>, section: Seq<char>, key: Seq<char>, i: int, in_sec: bool) -> Option<Seq<char>>
    decreases lines.len() - i,
{
    if i < 0 || i >= lines.len() {
        None
    } else {
        let s = trim(lines[i]);
        if s.len() == 0 || s[0] == '#' {
            desktop_scan(lines, section, key, i + 1, in_sec)
        } else if s[0] == '[' && s.last() == ']' && s.len() >= 2 {
            desktop_scan(lines, section, key, i + 1, s.subrange(1, s.len() - 1) == section)
        } else if !in_sec {
            desktop_scan(lines, section, key, i + 1, false)
        } else if !s.contains('=') {
            None
        } else {
            let e = crate::runtime::first_index_of(s, '=');
            let k = trim(s.subrange(0, e));
            let v = trim(s.subrange(e + 1, s.len() as int));
            if k == key && v.len() > 0 {
                Some(v)
            } else {
                desktop_scan(lines, section, key, i + 1, true)
            }
        }
    }
}

pub fn linux_desktop_key(text: &str, section: &str, key: &str) -> (r: Option<String>)
    ensures
        opt_view(r) == desktop_scan(split_on_lines(text@), section@, key@, 0, false),
{
    let lines = crate::detect::split_lines(text);
    let ghost lv = strs(lines@);
    let mut in_sec = false;
    let mut i: usize = 0;
    while i < lines.len()
        invariant
            lv == strs(lines@),
            lv == split_on_lines(text@),
            i <= lines@.len(),
            desktop_scan(lv, section@, key@, 0, false) == desktop_scan(lv, section@, key@, i as int, in_sec),
        decreases lines@.len() - i,
    {
        let s = trim_str(lines[i].as_str());
        let cs = chars_of(s.as_str());
        let n = cs.len();
        if n == 0 || cs[0] == '#' {
        } else if cs[0] == '[' && cs[n - 1] == ']' && n >= 2 {
            let inner = string_of(&cs, 1, n - 1);
            in_sec = crate::text::str_eq(inner.as_str(), section);
        } else if !in_sec {
        } else {
            let e = match crate::runtime::find_char(&cs, '=') {
                Some(e) => e,
                None => return None,
            };
            let kraw = string_of(&cs, 0, e);
            let k = trim_str(kraw.as_str());
            let vraw = string_of(&cs, e + 1, n);
            let v = trim_str(vraw.as_str());
            if crate::text::str_eq(k.as_str(), key) && !v.as_str().is_empty() {
                return Some(v);
            }
        }
        i += 1;
    }
    None
}

pub open spec fn split_on_lines(t: Seq<char>) -> Seq<Seq<char>> {
    crate::detect::split_on(t, '\n')
}

} // verus!
