//! The runtime variable snapshot: env-file parsing, merge policies, and the
//! assignments that a merge adds.

use vstd::prelude::*;
use crate::config::{SecretsStrategy, Shell, StrMap};
use crate::context::ContextEnv;
use crate::resolve::{resolve_from, token_value_of, Resolver};
use crate::varmap::assign_pair;
use crate::detect::{split_on, strs};
use crate::emit::{header_text, set_env_text, Emitter};
use crate::error::Error;
use crate::text::{chars_of, copy_str, has_prefix, starts_with, string_of, trim, trim_str};
use crate::varmap::{map_of, PairV, VarMap};

verus! {

/// The runtime variables of one generation run.
#[derive(Debug)]
pub struct RuntimeEnv {
    pub vars: VarMap,
}

/// `src` merged into `dst`: every key, or only where `dst` lacks it or holds
/// an empty value.
pub open spec fn merged(dst: Map<Seq<char>, Seq<char>>, src: Seq<PairV>, strategy: SecretsStrategy) -> Map<Seq<char>, Seq<char>>
    decreases src.len(),
{
    if src.len() == 0 {
        dst
    } else {
        let m = merged(dst, src.drop_last(), strategy);
        let (k, v) = src.last();
        if strategy == SecretsStrategy::Override || !m.contains_key(k) || m[k].len() == 0 {
            m.insert(k, v)
        } else {
            m
        }
    }
}

pub fn apply_strategy(dst: &mut VarMap, src: &VarMap, strategy: SecretsStrategy)
    ensures
        final(dst)@ == merged(old(dst)@, src.pairs(), strategy),
{
    let ghost sp = src.pairs();
    let mut i: usize = 0;
    assert(sp.subrange(0, 0) =~= Seq::<PairV>::empty());
    while i < src.len()
        invariant
            sp == src.pairs(),
            i <= sp.len(),
            dst@ == merged(old(dst)@, sp.subrange(0, i as int), strategy),
        decreases sp.len() - i,
    {
        assert(sp.subrange(0, i + 1).drop_last() =~= sp.subrange(0, i as int));
        let k = src.key_at(i);
        let v = src.value_at(i);
        let put = match strategy {
            SecretsStrategy::Override => true,
            SecretsStrategy::FillMissing => match dst.get(k.as_str()) {
                Some(cur) => cur.as_str().is_empty(),
                None => true,
            },
        };
        if put {
            dst.insert(k.as_str(), v.as_str());
        }
        i += 1;
    }
    assert(sp.subrange(0, sp.len() as int) =~= sp);
}

pub open spec fn first_index_of(s: Seq<char>, c: char) -> int {
    if s.contains(c) {
        choose|i: int| 0 <= i < s.len() && s[i] == c && forall|j: int| 0 <= j < i ==> s[j] != c
    } else {
        -1
    }
}

pub fn find_char(cs: &Vec<char>, c: char) -> (r: Option<usize>)
    ensures
        r matches Some(i) ==> i < cs@.len() && first_index_of(cs@, c) == i,
        r is None ==> !cs@.contains(c) && first_index_of(cs@, c) == -1,
{
    let mut i: usize = 0;
    while i < cs.len()
        invariant
            i <= cs@.len(),
            forall|j: int| 0 <= j < i ==> cs@[j] != c,
        decreases cs@.len() - i,
    {
        if cs[i] == c {
            proof {
                let w = choose|w: int| 0 <= w < cs@.len() && cs@[w] == c && forall|j: int| 0 <= j < w ==> cs@[j] != c;
                if w < i {
                } else if w > i {
                    assert(cs@[i as int] != c);
                }
            }
            return Some(i);
        }
        i += 1;
    }
    None
}

/// A value without one pair of surrounding `"` or `'`.
pub open spec fn unquoted(v: Seq<char>) -> Seq<char> {
    if v.len() >= 2 && ((v[0] == '"' && v.last() == '"') || (v[0] == '\'' && v.last() == '\'')) {
        v.subrange(1, v.len() - 1)
    } else {
        v
    }
}

/// What one line of an env file gives: nothing (blank, comment or empty
/// key), a binding, or an error where it has no `=`.
pub open spec fn env_line(line: Seq<char>) -> Option<Option<PairV>> {
    let s0 = trim(line);
    let s = if starts_with(s0, "export "@) {
        trim(s0.subrange("export "@.len() as int, s0.len() as int))
    } else {
        s0
    };
    if s0.len() == 0 || s0[0] == '#' {
        Some(None)
    } else if !s.contains('=') {
        None
    } else {
        let e = first_index_of(s, '=');
        let k = trim(s.subrange(0, e));
        let v = unquoted(trim(s.subrange(e + 1, s.len() as int)));
        if k.len() == 0 {
            Some(None)
        } else {
            Some(Some((k, v)))
        }
    }
}

/// The bindings of the first `n` lines, or the number of the first bad line.
pub open spec fn env_lines(lines: Seq<Seq<char>>, n: nat) -> Result<Seq<PairV>, nat>
    decreases n,
{
    if n == 0 || n > lines.len() {
        Ok(seq![])
    } else {
        match env_lines(lines, (n - 1) as nat) {
            Err(k) => Err(k),
            Ok(prev) => match env_line(lines[n - 1]) {
                None => Err(n),
                Some(None) => Ok(prev),
                Some(Some(p)) => Ok(prev.push(p)),
            },
        }
    }
}

proof fn lemma_env_lines_err(lines: Seq<Seq<char>>, n: nat, m: nat, k: nat)
    requires
        env_lines(lines, n) == Err::<Seq<PairV>, nat>(k),
        n <= m <= lines.len(),
    ensures
        env_lines(lines, m) == Err::<Seq<PairV>, nat>(k),
    decreases m - n,
{
    if n < m {
        lemma_env_lines_err(lines, n, (m - 1) as nat, k);
    }
}

pub open spec fn env_text_bindings(text: Seq<char>) -> Result<Seq<PairV>, nat> {
    env_lines(split_on(text, '\n'), split_on(text, '\n').len())
}

fn parse_env_line(line: &str) -> (r: Option<Option<(String, String)>>)
    ensures
        match env_line(line@) {
            None => r is None,
            Some(None) => r matches Some(x) && x is None,
            Some(Some(p)) => r matches Some(x) && x matches Some(q) && q.0@ == p.0 && q.1@ == p.1,
        },
{
    let s0 = trim_str(line);
    let c0 = chars_of(s0.as_str());
    if c0.len() == 0 || c0[0] == '#' {
        return Some(None);
    }
    let s = if has_prefix(s0.as_str(), "export ") {
        proof {
            reveal_strlit("export ");
        }
        let rest = string_of(&c0, 7, c0.len());
        trim_str(rest.as_str())
    } else {
        s0
    };
    let cs = chars_of(s.as_str());
    let cn = cs.len();
    let e = match find_char(&cs, '=') {
        Some(e) => e,
        None => return None,
    };
    let kraw = string_of(&cs, 0, e);
    let k = trim_str(kraw.as_str());
    let vraw = string_of(&cs, e + 1, cn);
    let v = trim_str(vraw.as_str());
    if k.as_str().is_empty() {
        return Some(None);
    }
    let vc = chars_of(v.as_str());
    let n = vc.len();
    let val = if n >= 2 && ((vc[0] == '"' && vc[n - 1] == '"') || (vc[0] == '\'' && vc[n - 1] == '\'')) {
        string_of(&vc, 1, n - 1)
    } else {
        v
    };
    Some(Some((k, val)))
}

/// Reads `KEY=VALUE` lines; blank lines, `#` comments and an `export `
/// prefix are allowed, and a later binding of a key wins.
pub fn parse_env_text(text: &str) -> (r: Result<VarMap, Error>)
    ensures
        env_text_bindings(text@) matches Ok(b) ==> (r matches Ok(m) && m@ == map_of(b)),
        env_text_bindings(text@) matches Err(n) ==> (r matches Err(Error::InvalidEnvLine { line, text: t })
            && line == n && t@ == split_on(text@, '\n')[n - 1]),
{
    let lines = crate::detect::split_lines(text);
    let ghost lv = strs(lines@);
    let mut out = VarMap::new();
    let ghost mut bound: Seq<PairV> = seq![];
    let mut i: usize = 0;
    while i < lines.len()
        invariant
            lv == strs(lines@),
            lv == split_on(text@, '\n'),
            i <= lines@.len(),
            env_lines(lv, i as nat) == Ok::<Seq<PairV>, nat>(bound),
            out@ == map_of(bound),
        decreases lines@.len() - i,
    {
        match parse_env_line(lines[i].as_str()) {
            None => {
                let t = lines[i].clone();
                proof {
                    assert(t@ == lv[i as int]);
                    assert(env_lines(lv, (i + 1) as nat) == Err::<Seq<PairV>, nat>((i + 1) as nat));
                    lemma_env_lines_err(lv, (i + 1) as nat, lv.len(), (i + 1) as nat);
                }
                return Err(Error::InvalidEnvLine { line: i + 1, text: t });
            },
            Some(None) => {},
            Some(Some((k, v))) => {
                out.insert(k.as_str(), v.as_str());
                proof {
                    let b2 = bound.push((k@, v@));
                    assert(b2.drop_last() =~= bound);
                    bound = b2;
                }
            },
        }
        i += 1;
    }
    Ok(out)
}

/// The assignments that `after` has and `before` lacks or holds otherwise,
/// in `after`'s order.
pub open spec fn delta_text(shell: Shell, before: Map<Seq<char>, Seq<char>>, after: Seq<PairV>) -> Seq<char>
    decreases after.len(),
{
    if after.len() == 0 {
        seq![]
    } else {
        let (k, v) = after.last();
        delta_text(shell, before, after.drop_last()) + if before.contains_key(k) && before[k] == v {
            seq![]
        } else {
            set_env_text(shell, k, v)
        }
    }
}

/// Exports for each variable that the merge added or changed, under a
/// header; nothing where there is none.
pub fn emit_env_delta(shell: Shell, before: &VarMap, after: &VarMap) -> (r: String)
    ensures
        r@ == if delta_text(shell, before@, after.pairs()).len() == 0 {
            Seq::<char>::empty()
        } else {
            header_text("apogee (dotenv)"@) + delta_text(shell, before@, after.pairs())
        },
{
    let em = Emitter::new(shell);
    let mut out = String::new();
    em.header(&mut out, "apogee (dotenv)");
    let ghost head = out@;
    let ghost ap = after.pairs();
    let mut any = false;
    let mut i: usize = 0;
    assert(ap.subrange(0, 0) =~= Seq::<PairV>::empty());
    assert(out@ =~= head + delta_text(shell, before@, ap.subrange(0, 0)));
    while i < after.len()
        invariant
            ap == after.pairs(),
            em.shell == shell,
            i <= ap.len(),
            out@ == head + delta_text(shell, before@, ap.subrange(0, i as int)),
            any == (delta_text(shell, before@, ap.subrange(0, i as int)).len() > 0),
        decreases ap.len() - i,
    {
        assert(ap.subrange(0, i + 1).drop_last() =~= ap.subrange(0, i as int));
        let k = after.key_at(i);
        let v = after.value_at(i);
        let same = match before.get(k.as_str()) {
            Some(b) => *b == *v,
            None => false,
        };
        if !same {
            em.set_env(&mut out, k.as_str(), v.as_str());
            any = true;
            proof {
                reveal(set_env_text);
                reveal_strlit("export ");
                reveal_strlit("set -gx ");
                reveal_strlit("$env:");
            }
        }
        assert(out@ =~= head + delta_text(shell, before@, ap.subrange(0, i + 1)));
        i += 1;
    }
    assert(ap.subrange(0, ap.len() as int) =~= ap);
    if any {
        out
    } else {
        String::new()
    }
}

/// The groups' texts joined in order: blank ones left out, the others
/// separated by one empty line.
pub open spec fn stitched(parts: Seq<Seq<char>>) -> Seq<char>
    decreases parts.len(),
{
    if parts.len() == 0 {
        seq![]
    } else {
        let out = stitched(parts.drop_last());
        let p = parts.last();
        if crate::text::is_blank(p) {
            out
        } else if out.len() == 0 {
            p
        } else if out.last() != '\n' {
            out + seq!['\n', '\n'] + p
        } else {
            out + seq!['\n'] + p
        }
    }
}

pub fn stitch_output(parts: &Vec<String>) -> (r: String)
    ensures
        r@ == stitched(strs(parts@)),
{
    let ghost pv = strs(parts@);
    let mut out = String::new();
    let mut i: usize = 0;
    assert(pv.subrange(0, 0) =~= Seq::<Seq<char>>::empty());
    while i < parts.len()
        invariant
            pv == strs(parts@),
            i <= parts@.len(),
            out@ == stitched(pv.subrange(0, i as int)),
        decreases parts@.len() - i,
    {
        assert(pv.subrange(0, i + 1).drop_last() =~= pv.subrange(0, i as int));
        let p = &parts[i];
        let pc = chars_of(p.as_str());
        let (lo, hi) = crate::text::trim_bounds(&pc);
        if lo != hi {
            let oc = chars_of(out.as_str());
            let ghost o = out@;
            if oc.len() > 0 {
                if oc[oc.len() - 1] != '\n' {
                    crate::text::push_char(&mut out, '\n');
                }
                crate::text::push_char(&mut out, '\n');
            }
            out.append(p.as_str());
            assert(out@ =~= stitched(pv.subrange(0, i + 1)));
        }
        i += 1;
    }
    assert(pv.subrange(0, parts@.len() as int) =~= pv);
    out
}

/// The shell to emit for: `APOGEE_SHELL` where it names one, else the
/// detected shell, else the configured default.
pub open spec fn run_shell(vars: Map<Seq<char>, Seq<char>>, detected: Option<Shell>, default: Shell) -> Shell {
    if vars.contains_key("APOGEE_SHELL"@) && crate::config::shell_of(vars["APOGEE_SHELL"@]) is Some {
        crate::config::shell_of(vars["APOGEE_SHELL"@])->Some_0
    } else if detected is Some {
        detected->Some_0
    } else {
        default
    }
}

pub fn choose_shell(vars: &VarMap, detected: Option<Shell>, default: Shell) -> (r: Shell)
    ensures
        r == run_shell(vars@, detected, default),
{
    if let Some(s) = vars.get("APOGEE_SHELL") {
        if let Some(sh) = Shell::parse(s.as_str()) {
            return sh;
        }
    }
    match detected {
        Some(sh) => sh,
        None => default,
    }
}

/// The bootstrap defaults in turn, each resolved against the variables so
/// far and set only where the variable is missing or empty.
pub open spec fn bootstrapped(ctx: ContextEnv, vars: Seq<PairV>, defaults: Seq<PairV>) -> Option<Seq<PairV>>
    decreases defaults.len(),
{
    if defaults.len() == 0 {
        Some(vars)
    } else {
        match bootstrapped(ctx, vars, defaults.drop_last()) {
            None => None,
            Some(v) => {
                let (k, raw) = defaults.last();
                let m = map_of(v);
                if m.contains_key(k) && m[k].len() > 0 {
                    Some(v)
                } else {
                    match resolve_from(|t: Seq<char>| token_value_of(ctx, m, None, t), raw, 0) {
                        Ok(val) => Some(assign_pair(v, k, val)),
                        Err(_) => None,
                    }
                }
            },
        }
    }
}

proof fn lemma_boot_none_grows(ctx: ContextEnv, vars: Seq<PairV>, d: Seq<PairV>, k: int)
    requires
        0 < k <= d.len(),
        bootstrapped(ctx, vars, d.subrange(0, k)) is None,
    ensures
        bootstrapped(ctx, vars, d) is None,
    decreases d.len() - k,
{
    if k < d.len() {
        assert(d.subrange(0, k + 1).drop_last() =~= d.subrange(0, k));
        lemma_boot_none_grows(ctx, vars, d, k + 1);
    } else {
        assert(d.subrange(0, k) =~= d);
    }
}

pub fn apply_bootstrap_defaults(ctx: &ContextEnv, vars: &mut VarMap, defaults: &StrMap) -> (r: Result<(), Error>)
    ensures
        r is Ok <==> bootstrapped(*ctx, old(vars).pairs(), crate::activate::sorted_pairs(defaults@)) is Some,
        r is Ok ==> Some(final(vars).pairs()) == bootstrapped(*ctx, old(vars).pairs(), crate::activate::sorted_pairs(defaults@)),
{
    let sorted = crate::activate::sort_pairs(defaults);
    let ghost dv = crate::activate::sorted_pairs(defaults@);
    let ghost start = vars.pairs();
    let mut i: usize = 0;
    assert(dv.subrange(0, 0) =~= Seq::<PairV>::empty());
    while i < sorted.len()
        invariant
            dv == crate::activate::pair_views(sorted@),
            dv == crate::activate::sorted_pairs(defaults@),
            i <= sorted@.len(),
            start == old(vars).pairs(),
            bootstrapped(*ctx, start, dv.subrange(0, i as int)) == Some(vars.pairs()),
        decreases sorted@.len() - i,
    {
        assert(dv.subrange(0, i + 1).drop_last() =~= dv.subrange(0, i as int));
        assert(dv[i as int].0 == sorted@[i as int].0@ && dv[i as int].1 == sorted@[i as int].1@);
        let k = &sorted[i].0;
        let missing = match vars.get(k.as_str()) {
            Some(v) => v.as_str().is_empty(),
            None => true,
        };
        if missing {
            let val = {
                let res = Resolver::new(ctx, vars);
                assert(res.token_fn() == (|t: Seq<char>| token_value_of(*ctx, map_of(vars.pairs()), None, t)));
                match res.resolve(sorted[i].1.as_str()) {
                    Ok(v) => v,
                    Err(e) => {
                        proof {
                            lemma_boot_none_grows(*ctx, start, dv, i + 1);
                        }
                        return Err(e);
                    },
                }
            };
            vars.insert(k.as_str(), val.as_str());
        }
        i += 1;
    }
    assert(dv.subrange(0, sorted@.len() as int) =~= dv);
    Ok(())
}

/// The global environment in turn, each value resolved against the
/// variables so far.
pub open spec fn with_globals(ctx: ContextEnv, vars: Seq<PairV>, env: Seq<PairV>) -> Option<Seq<PairV>>
    decreases env.len(),
{
    if env.len() == 0 {
        Some(vars)
    } else {
        match with_globals(ctx, vars, env.drop_last()) {
            None => None,
            Some(v) => match resolve_from(|t: Seq<char>| token_value_of(ctx, map_of(v), None, t), env.last().1, 0) {
                Ok(val) => Some(assign_pair(v, env.last().0, val)),
                Err(_) => None,
            },
        }
    }
}

proof fn lemma_globals_none_grows(ctx: ContextEnv, vars: Seq<PairV>, d: Seq<PairV>, k: int)
    requires
        0 < k <= d.len(),
        with_globals(ctx, vars, d.subrange(0, k)) is None,
    ensures
        with_globals(ctx, vars, d) is None,
    decreases d.len() - k,
{
    if k < d.len() {
        assert(d.subrange(0, k + 1).drop_last() =~= d.subrange(0, k));
        lemma_globals_none_grows(ctx, vars, d, k + 1);
    } else {
        assert(d.subrange(0, k) =~= d);
    }
}

pub fn apply_global_env(ctx: &ContextEnv, vars: &mut VarMap, env: &StrMap) -> (r: Result<(), Error>)
    ensures
        r is Ok <==> with_globals(*ctx, old(vars).pairs(), crate::activate::sorted_pairs(env@)) is Some,
        r is Ok ==> Some(final(vars).pairs()) == with_globals(*ctx, old(vars).pairs(), crate::activate::sorted_pairs(env@)),
{
    let sorted = crate::activate::sort_pairs(env);
    let ghost dv = crate::activate::sorted_pairs(env@);
    let ghost start = vars.pairs();
    let mut i: usize = 0;
    assert(dv.subrange(0, 0) =~= Seq::<PairV>::empty());
    while i < sorted.len()
        invariant
            dv == crate::activate::pair_views(sorted@),
            dv == crate::activate::sorted_pairs(env@),
            i <= sorted@.len(),
            start == old(vars).pairs(),
            with_globals(*ctx, start, dv.subrange(0, i as int)) == Some(vars.pairs()),
        decreases sorted@.len() - i,
    {
        assert(dv.subrange(0, i + 1).drop_last() =~= dv.subrange(0, i as int));
        assert(dv[i as int].0 == sorted@[i as int].0@ && dv[i as int].1 == sorted@[i as int].1@);
        let val = {
            let res = Resolver::new(ctx, vars);
            assert(res.token_fn() == (|t: Seq<char>| token_value_of(*ctx, map_of(vars.pairs()), None, t)));
            match res.resolve(sorted[i].1.as_str()) {
                Ok(v) => v,
                Err(e) => {
                    proof {
                        lemma_globals_none_grows(*ctx, start, dv, i + 1);
                    }
                    return Err(e);
                },
            }
        };
        vars.insert(sorted[i].0.as_str(), val.as_str());
        i += 1;
    }
    assert(dv.subrange(0, sorted@.len() as int) =~= dv);
    Ok(())
}

/// Where the dotenv file is, before resolution: as configured, else
/// `{config_dir}/.env`.
pub fn env_file_raw(meta: &crate::config::ApogeeMeta) -> (r: String)
    ensures
        meta.env_file matches Some(f) ==> r@ == f@,
        meta.env_file is None ==> r@ == "{config_dir}/.env"@,
{
    match &meta.env_file {
        Some(f) => f.clone(),
        None => copy_str("{config_dir}/.env"),
    }
}

} // verus!
