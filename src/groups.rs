//! The groups whose modules need no detection: global settings and hooks.

use vstd::prelude::*;
use crate::activate::{sort_pairs, sorted_pairs, concat_map, lemma_concat_empty, lemma_concat_step, pair_views, resolve_pairs, emit_aliases_block};
use crate::config::{Config, GlobalConfig, HookItem, Platform, Shell, StrMap};
use crate::context::ContextEnv;
use crate::detect::strs;
use crate::emit::{alias_text, comment_text, header_text, set_env_text, source_text, Emitter};
use crate::error::Error;
use crate::orchestrate::{banner, banner_text, supports};
use crate::resolve::{resolve_from, token_value_of, Resolver, Vars};
use crate::runtime::RuntimeEnv;
use crate::varmap::PairV;

verus! {

pub open spec fn plain_tokens(ctx: ContextEnv, vars: Vars) -> spec_fn(Seq<char>) -> Option<Seq<char>> {
    |t: Seq<char>| token_value_of(ctx, vars, None, t)
}

pub open spec fn platform_aliases(g: GlobalConfig, p: Platform) -> Seq<(String, String)> {
    match p {
        Platform::Mac => g.aliases.platform.mac@,
        Platform::Linux => g.aliases.platform.linux@,
        Platform::Windows => g.aliases.platform.windows@,
        Platform::Wsl => g.aliases.platform.wsl@,
        Platform::Other => g.aliases.platform.other@,
    }
}

pub open spec fn shell_aliases(g: GlobalConfig, s: Shell) -> Seq<(String, String)> {
    match s {
        Shell::Zsh => g.aliases.shell.zsh@,
        Shell::Bash => g.aliases.shell.bash@,
        Shell::Fish => g.aliases.shell.fish@,
        Shell::Pwsh => g.aliases.shell.pwsh@,
    }
}

/// The global block: its environment, then the platform's and the shell's
/// aliases, each value resolved; nothing where all three are empty.
pub open spec fn global_text(ctx: ContextEnv, vars: Vars, g: GlobalConfig, shell: Shell) -> Option<Seq<char>> {
    let tv = plain_tokens(ctx, vars);
    let pa = platform_aliases(g, ctx.platform);
    let sa = shell_aliases(g, shell);
    if g.env@.len() == 0 && pa.len() == 0 && sa.len() == 0 {
        Some(seq![])
    } else {
        match (resolve_pairs(tv, sorted_pairs(g.env@)), resolve_pairs(tv, sorted_pairs(pa)), resolve_pairs(tv, sorted_pairs(sa))) {
            (Some(e), Some(a), Some(b)) => Some(
                header_text("apogee (global)"@) + concat_map(e, |p: PairV| set_env_text(shell, p.0, p.1))
                    + concat_map(a, |p: PairV| alias_text(shell, p.0, p.1)) + concat_map(
                    b,
                    |p: PairV| alias_text(shell, p.0, p.1),
                ),
            ),
            _ => None,
        }
    }
}

fn emit_env_pairs(em: &Emitter, out: &mut String, env: &Vec<(String, String)>)
    ensures
        final(out)@ == old(out)@ + concat_map(pair_views(env@), |p: PairV| set_env_text(em.shell, p.0, p.1)),
{
    let ghost av = pair_views(env@);
    let ghost f = |p: PairV| set_env_text(em.shell, p.0, p.1);
    let mut i: usize = 0;
    proof {
        lemma_concat_empty(av.subrange(0, 0), f);
    }
    assert(out@ =~= old(out)@ + concat_map(av.subrange(0, 0), f));
    while i < env.len()
        invariant
            av == pair_views(env@),
            f == (|p: PairV| set_env_text(em.shell, p.0, p.1)),
            i <= env@.len(),
            out@ == old(out)@ + concat_map(av.subrange(0, i as int), f),
        decreases env@.len() - i,
    {
        em.set_env(out, env[i].0.as_str(), env[i].1.as_str());
        proof {
            lemma_concat_step(av, i as int, f);
            assert(out@ =~= old(out)@ + concat_map(av.subrange(0, i + 1), f));
        }
        i += 1;
    }
    assert(av.subrange(0, env@.len() as int) =~= av);
}

fn pick_platform_aliases(g: &GlobalConfig, p: Platform) -> (r: &StrMap)
    ensures
        r@ == platform_aliases(*g, p),
{
    match p {
        Platform::Mac => &g.aliases.platform.mac,
        Platform::Linux => &g.aliases.platform.linux,
        Platform::Windows => &g.aliases.platform.windows,
        Platform::Wsl => &g.aliases.platform.wsl,
        Platform::Other => &g.aliases.platform.other,
    }
}

fn pick_shell_aliases(g: &GlobalConfig, s: Shell) -> (r: &StrMap)
    ensures
        r@ == shell_aliases(*g, s),
{
    match s {
        Shell::Zsh => &g.aliases.shell.zsh,
        Shell::Bash => &g.aliases.shell.bash,
        Shell::Fish => &g.aliases.shell.fish,
        Shell::Pwsh => &g.aliases.shell.pwsh,
    }
}

/// Global environment and aliases, resolved against the runtime variables.
pub fn emit_global(ctx: &ContextEnv, rt: &RuntimeEnv, cfg: &Config, shell: Shell) -> (r: Result<String, Error>)
    ensures
        global_text(*ctx, rt.vars@, cfg.global, shell) matches Some(t) ==> (r matches Ok(s) && s@ == t),
        global_text(*ctx, rt.vars@, cfg.global, shell) is None ==> r is Err,
{
    let g = &cfg.global;
    let pa = pick_platform_aliases(g, ctx.platform);
    let sa = pick_shell_aliases(g, shell);
    if g.env.len() == 0 && pa.len() == 0 && sa.len() == 0 {
        return Ok(String::new());
    }
    let res = Resolver::new(ctx, &rt.vars);
    assert(res.token_fn() == plain_tokens(*ctx, rt.vars@));
    let se = sort_pairs(&g.env);
    let spa = sort_pairs(pa);
    let ssa = sort_pairs(sa);
    let env = crate::activate::resolve_values(&res, &se)?;
    let a = crate::activate::resolve_values(&res, &spa)?;
    let b = crate::activate::resolve_values(&res, &ssa)?;
    let em = Emitter::new(shell);
    let mut out = String::new();
    em.header(&mut out, "apogee (global)");
    emit_env_pairs(&em, &mut out, &env);
    emit_aliases_block(&em, &mut out, &a);
    emit_aliases_block(&em, &mut out, &b);
    Ok(out)
}

pub open spec fn hook_selected(h: HookItem, ctx: ContextEnv, shell: Shell) -> bool {
    &&& h.enabled
    &&& supports(h.platforms@, ctx.platform)
    &&& (h.hosts@.len() == 0 || strs(h.hosts@).contains(ctx.host@))
    &&& (h.shells@.len() == 0 || h.shells@.contains(shell))
}

/// The hooks' text: each selected hook under its banner, its script sourced
/// where readable; `None` where a selected script does not resolve.
pub open spec fn hooks_text(ctx: ContextEnv, vars: Vars, shell: Shell, hs: Seq<HookItem>) -> Option<Seq<char>>
    decreases hs.len(),
{
    if hs.len() == 0 {
        Some(seq![])
    } else {
        let h = hs.last();
        match hooks_text(ctx, vars, shell, hs.drop_last()) {
            None => None,
            Some(prev) => if !hook_selected(h, ctx, shell) {
                Some(prev)
            } else {
                match resolve_from(plain_tokens(ctx, vars), h.script@, 0) {
                    Ok(p) => Some(prev + comment_text(banner("hook"@, h.name@)) + source_text(shell, p) + seq!['\n']),
                    Err(_) => None,
                }
            },
        }
    }
}

pub open spec fn any_selected(ctx: ContextEnv, shell: Shell, hs: Seq<HookItem>) -> bool {
    exists|i: int| 0 <= i < hs.len() && hook_selected(#[trigger] hs[i], ctx, shell)
}

fn hook_applies(h: &HookItem, ctx: &ContextEnv, shell: Shell) -> (r: bool)
    ensures
        r == hook_selected(*h, *ctx, shell),
{
    if !h.enabled || !crate::orchestrate::module_supports_platform(&h.platforms, ctx.platform) {
        return false;
    }
    if h.hosts.len() > 0 && !crate::detect::contains_str(&h.hosts, &ctx.host) {
        return false;
    }
    if h.shells.len() > 0 {
        let mut i: usize = 0;
        while i < h.shells.len()
            invariant
                i <= h.shells@.len(),
                h.enabled,
                supports(h.platforms@, ctx.platform),
                h.hosts@.len() == 0 || strs(h.hosts@).contains(ctx.host@),
                forall|k: int| 0 <= k < i ==> h.shells@[k] != shell,
            decreases h.shells@.len() - i,
        {
            if h.shells[i] == shell {
                assert(h.shells@[i as int] == shell);
                return true;
            }
            i += 1;
        }
        return false;
    }
    true
}

/// Sources each hook that applies to this platform, host and shell.
pub fn emit_hooks(ctx: &ContextEnv, rt: &RuntimeEnv, cfg: &Config, shell: Shell) -> (r: Result<String, Error>)
    ensures
        !(cfg.modules.enable_hooks && cfg.modules.hooks.enabled) ==> (r matches Ok(s) && s@.len() == 0),
        cfg.modules.enable_hooks && cfg.modules.hooks.enabled ==> ({
            let hs = cfg.modules.hooks.items@;
            &&& (r is Ok <==> hooks_text(*ctx, rt.vars@, shell, hs) is Some)
            &&& (r matches Ok(s) ==> s@ == if any_selected(*ctx, shell, hs) {
                header_text("apogee (hooks)"@) + hooks_text(*ctx, rt.vars@, shell, hs)->Some_0
            } else {
                Seq::<char>::empty()
            })
        }),
{
    if !cfg.modules.enable_hooks || !cfg.modules.hooks.enabled {
        return Ok(String::new());
    }
    let hs = &cfg.modules.hooks.items;
    let em = Emitter::new(shell);
    let mut out = String::new();
    em.header(&mut out, "apogee (hooks)");
    let ghost head = out@;
    let res = Resolver::new(ctx, &rt.vars);
    assert(res.token_fn() == plain_tokens(*ctx, rt.vars@));
    let mut any = false;
    let mut i: usize = 0;
    assert(hs@.subrange(0, 0) =~= Seq::<HookItem>::empty());
    assert(out@ =~= head + hooks_text(*ctx, rt.vars@, shell, hs@.subrange(0, 0))->Some_0);
    while i < hs.len()
        invariant
            res.token_fn() == plain_tokens(*ctx, rt.vars@),
            cfg.modules.enable_hooks && cfg.modules.hooks.enabled,
            hs@ == cfg.modules.hooks.items@,
            em.shell == shell,
            i <= hs@.len(),
            hooks_text(*ctx, rt.vars@, shell, hs@.subrange(0, i as int)) is Some,
            out@ == head + hooks_text(*ctx, rt.vars@, shell, hs@.subrange(0, i as int))->Some_0,
            any == any_selected(*ctx, shell, hs@.subrange(0, i as int)),
        decreases hs@.len() - i,
    {
        assert(hs@.subrange(0, i + 1).drop_last() =~= hs@.subrange(0, i as int));
        let h = &hs[i];
        let ghost prev = hooks_text(*ctx, rt.vars@, shell, hs@.subrange(0, i as int))->Some_0;
        if hook_applies(h, ctx, shell) {
            let script = match res.resolve(h.script.as_str()) {
                Ok(s) => s,
                Err(e) => {
                    proof {
                        assert(hs@.subrange(0, i + 1)[i as int] == *h);
                        lemma_hooks_none_grows(*ctx, rt.vars@, shell, hs@, i + 1);
                    }
                    return Err(e);
                },
            };
            let b = banner_text("hook", h.name.as_str());
            em.comment(&mut out, b.as_str());
            em.source_if_exists(&mut out, script.as_str());
            em.blank(&mut out);
            any = true;
            assert(out@ =~= head + hooks_text(*ctx, rt.vars@, shell, hs@.subrange(0, i + 1))->Some_0);
            assert(hs@.subrange(0, i + 1)[i as int] == *h);
        } else {
            proof {
                if any_selected(*ctx, shell, hs@.subrange(0, i + 1)) {
                    let w = choose|w: int| 0 <= w < i + 1 && hook_selected(#[trigger] hs@.subrange(0, i + 1)[w], *ctx, shell);
                    assert(hs@.subrange(0, i as int)[w] == hs@.subrange(0, i + 1)[w]);
                }
            }
        }
        proof {
            if any_selected(*ctx, shell, hs@.subrange(0, i as int)) {
                let w = choose|w: int| 0 <= w < i && hook_selected(#[trigger] hs@.subrange(0, i as int)[w], *ctx, shell);
                assert(hs@.subrange(0, i as int)[w] == hs@.subrange(0, i + 1)[w]);
            }
        }
        i += 1;
    }
    assert(hs@.subrange(0, hs@.len() as int) =~= hs@);
    Ok(crate::orchestrate::finish_group(out, any))
}

proof fn lemma_hooks_none_grows(ctx: ContextEnv, vars: Vars, shell: Shell, hs: Seq<HookItem>, k: int)
    requires
        0 < k <= hs.len(),
        hooks_text(ctx, vars, shell, hs.subrange(0, k)) is None,
    ensures
        hooks_text(ctx, vars, shell, hs) is None,
    decreases hs.len() - k,
{
    if k < hs.len() {
        assert(hs.subrange(0, k + 1).drop_last() =~= hs.subrange(0, k));
        lemma_hooks_none_grows(ctx, vars, shell, hs, k + 1);
    } else {
        assert(hs.subrange(0, k) =~= hs);
    }
}

} // verus!
