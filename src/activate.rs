//! One module's effects: the code emitted for it, and the same effects
//! applied to the runtime variables.

use vstd::prelude::*;
use crate::config::{EmitBlock, EmitInit, Platform, StrMap};
use crate::detect::{clean_parts, dedup, path_value, path_sep, split_on, strs, HostView};
use crate::emit::{alias_text, init_text, path_text, set_env_text, source_text, Emitter};
use crate::envorder::{env_order, order_env_assignments};
use crate::error::Error;
use crate::resolve::{resolve_from, token_value_of, Resolver, Vars};
use crate::varmap::{assign_pair, map_of, PairV, VarMap};
use crate::context::ContextEnv;

verus! {

pub type Tokens = spec_fn(Seq<char>) -> Option<Seq<char>>;

/// Each raw value resolved, or `None` where one does not resolve.
pub open spec fn resolve_list(tv: Tokens, raws: Seq<Seq<char>>) -> Option<Seq<Seq<char>>>
    decreases raws.len(),
{
    if raws.len() == 0 {
        Some(seq![])
    } else {
        match (resolve_list(tv, raws.drop_last()), resolve_from(tv, raws.last(), 0)) {
            (Some(p), Ok(v)) => Some(p.push(v)),
            _ => None,
        }
    }
}

pub open spec fn pair_views(m: Seq<(String, String)>) -> Seq<PairV> {
    m.map_values(|p: (String, String)| (p.0@, p.1@))
}

/// Each value resolved, the keys kept.
pub open spec fn resolve_pairs(tv: Tokens, raws: Seq<PairV>) -> Option<Seq<PairV>>
    decreases raws.len(),
{
    if raws.len() == 0 {
        Some(seq![])
    } else {
        match (resolve_pairs(tv, raws.drop_last()), resolve_from(tv, raws.last().1, 0)) {
            (Some(p), Ok(v)) => Some(p.push((raws.last().0, v))),
            _ => None,
        }
    }
}

/// A configuration map as an ordered map reads it: keys ascending, each
/// once, the last value of a key kept.
pub open spec fn sorted_pairs(m: Seq<(String, String)>) -> Seq<PairV> {
    assign_all(seq![], pair_views(m))
}

/// The assignments in turn, each set in place where its key already is.
pub open spec fn assign_all(base: Seq<PairV>, ps: Seq<PairV>) -> Seq<PairV>
    decreases ps.len(),
{
    if ps.len() == 0 {
        base
    } else {
        assign_pair(assign_all(base, ps.drop_last()), ps.last().0, ps.last().1)
    }
}

#[verifier::opaque]
pub open spec fn concat_map<A>(s: Seq<A>, f: spec_fn(A) -> Seq<char>) -> Seq<char>
    decreases s.len(),
{
    if s.len() == 0 {
        seq![]
    } else {
        concat_map(s.drop_last(), f) + f(s.last())
    }
}

pub struct InitV {
    pub command: Seq<char>,
    pub args: Seq<Seq<char>>,
    pub out_string: bool,
}

pub open spec fn resolve_inits(tv: Tokens, inits: Seq<EmitInit>) -> Option<Seq<InitV>>
    decreases inits.len(),
{
    if inits.len() == 0 {
        Some(seq![])
    } else {
        let last = inits.last();
        match (
            resolve_inits(tv, inits.drop_last()),
            resolve_from(tv, last.command@, 0),
            resolve_list(tv, strs(last.args@)),
        ) {
            (Some(p), Ok(c), Some(a)) => Some(
                p.push(InitV { command: c, args: a, out_string: last.pwsh_out_string }),
            ),
            _ => None,
        }
    }
}

/// A block of one module with every value resolved.
pub struct BlockV {
    pub assigns: Seq<PairV>,
    pub prepend: Seq<Seq<char>>,
    pub append: Seq<Seq<char>>,
    pub functions: Seq<Seq<char>>,
    pub sources: Seq<Seq<char>>,
    pub aliases: Seq<PairV>,
    pub inits: Seq<InitV>,
}

#[verifier::opaque]
pub open spec fn resolve_block(tv: Tokens, e: EmitBlock) -> Option<BlockV> {
    match (
        resolve_pairs(tv, pair_views(e.env@)),
        resolve_pairs(tv, pair_views(e.env_derived@)),
        resolve_list(tv, strs(e.paths.prepend_if_exists@)),
        resolve_list(tv, strs(e.paths.append_if_exists@)),
        resolve_list(tv, strs(e.functions.files@)),
        resolve_list(tv, strs(e.source.files@)),
        resolve_pairs(tv, sorted_pairs(e.aliases@)),
        resolve_inits(tv, e.init@),
    ) {
        (Some(a), Some(d), Some(pre), Some(app), Some(f), Some(s), Some(al), Some(i)) => Some(
            BlockV {
                assigns: assign_all(seq![], a + d),
                prepend: pre,
                append: app,
                functions: f,
                sources: s,
                aliases: al,
                inits: i,
            },
        ),
        _ => None,
    }
}

pub open spec fn env_block_text(shell: crate::config::Shell, a: Seq<PairV>) -> Seq<char> {
    concat_map(env_order(a), |i: int| set_env_text(shell, a[i].0, a[i].1))
}

pub open spec fn nl_if(cond: bool, body: Seq<char>) -> Seq<char> {
    if cond {
        seq!['\n'] + body
    } else {
        seq![]
    }
}

/// The code emitted for one module: environment in dependency order, PATH
/// changes, function files and sourced files (each path once), aliases, and
/// init commands; each later section after a blank line where it has entries.
#[verifier::opaque]
pub open spec fn block_text(shell: crate::config::Shell, e: EmitBlock, b: BlockV) -> Seq<char> {
    env_block_text(shell, b.assigns) + nl_if(
        e.paths.prepend_if_exists@.len() > 0 || e.paths.append_if_exists@.len() > 0,
        concat_map(b.prepend, |d: Seq<char>| path_text(shell, d, true)) + concat_map(
            b.append,
            |d: Seq<char>| path_text(shell, d, false),
        ),
    ) + nl_if(
        e.functions.files@.len() > 0,
        concat_map(dedup(b.functions), |p: Seq<char>| source_text(shell, p)),
    ) + nl_if(
        e.source.files@.len() > 0,
        concat_map(dedup(b.sources), |p: Seq<char>| source_text(shell, p)),
    ) + nl_if(
        e.aliases@.len() > 0,
        concat_map(b.aliases, |p: PairV| alias_text(shell, p.0, p.1)),
    ) + nl_if(
        e.init@.len() > 0,
        concat_map(b.inits, |i: InitV| init_text(shell, i.command, i.args, i.out_string)),
    )
}

pub open spec fn module_tokens(ctx: ContextEnv, vars: Vars, detect: Vars) -> Tokens {
    |t: Seq<char>| token_value_of(ctx, vars, Some(detect), t)
}

/// Resolves each value; fails on the first that does not resolve.
pub fn resolve_each(r: &Resolver, raws: &Vec<String>) -> (res: Result<Vec<String>, Error>)
    ensures
        res is Ok <==> resolve_list(r.token_fn(), strs(raws@)) is Some,
        res matches Ok(v) ==> resolve_list(r.token_fn(), strs(raws@)) == Some(strs(v@)),
        res matches Err(e) ==> (e is UnclosedToken || e is EmptyToken || e is UnknownToken),
{
    let ghost rv = strs(raws@);
    let mut out: Vec<String> = Vec::new();
    let mut i: usize = 0;
    assert(rv.subrange(0, 0) =~= Seq::<Seq<char>>::empty());
    while i < raws.len()
        invariant
            rv == strs(raws@),
            i <= raws@.len(),
            resolve_list(r.token_fn(), rv.subrange(0, i as int)) == Some(strs(out@)),
        decreases raws@.len() - i,
    {
        assert(rv.subrange(0, i + 1).drop_last() =~= rv.subrange(0, i as int));
        match r.resolve(raws[i].as_str()) {
            Ok(v) => {
                out.push(v);
                assert(strs(out@) =~= resolve_list(r.token_fn(), rv.subrange(0, i + 1))->Some_0);
            },
            Err(e) => {
                proof {
                    lemma_list_none_grows(r.token_fn(), rv, i + 1);
                }
                return Err(e);
            },
        }
        i += 1;
    }
    assert(rv.subrange(0, raws@.len() as int) =~= rv);
    Ok(out)
}

proof fn lemma_list_none_grows(tv: Tokens, rv: Seq<Seq<char>>, k: int)
    requires
        0 < k <= rv.len(),
        resolve_list(tv, rv.subrange(0, k)) is None,
    ensures
        resolve_list(tv, rv) is None,
    decreases rv.len() - k,
{
    if k < rv.len() {
        assert(rv.subrange(0, k + 1).drop_last() =~= rv.subrange(0, k));
        lemma_list_none_grows(tv, rv, k + 1);
    } else {
        assert(rv.subrange(0, k) =~= rv);
    }
}

proof fn lemma_pairs_none_grows(tv: Tokens, rv: Seq<PairV>, k: int)
    requires
        0 < k <= rv.len(),
        resolve_pairs(tv, rv.subrange(0, k)) is None,
    ensures
        resolve_pairs(tv, rv) is None,
    decreases rv.len() - k,
{
    if k < rv.len() {
        assert(rv.subrange(0, k + 1).drop_last() =~= rv.subrange(0, k));
        lemma_pairs_none_grows(tv, rv, k + 1);
    } else {
        assert(rv.subrange(0, k) =~= rv);
    }
}

pub fn resolve_values(r: &Resolver, raws: &StrMap) -> (res: Result<Vec<(String, String)>, Error>)
    ensures
        res is Ok <==> resolve_pairs(r.token_fn(), pair_views(raws@)) is Some,
        res matches Ok(v) ==> resolve_pairs(r.token_fn(), pair_views(raws@)) == Some(pair_views(v@)),
{
    let ghost rv = pair_views(raws@);
    let mut out: Vec<(String, String)> = Vec::new();
    let mut i: usize = 0;
    assert(rv.subrange(0, 0) =~= Seq::<PairV>::empty());
    while i < raws.len()
        invariant
            rv == pair_views(raws@),
            i <= raws@.len(),
            resolve_pairs(r.token_fn(), rv.subrange(0, i as int)) == Some(pair_views(out@)),
        decreases raws@.len() - i,
    {
        assert(rv.subrange(0, i + 1).drop_last() =~= rv.subrange(0, i as int));
        match r.resolve(raws[i].1.as_str()) {
            Ok(v) => {
                out.push((raws[i].0.clone(), v));
                assert(pair_views(out@) =~= resolve_pairs(r.token_fn(), rv.subrange(0, i + 1))->Some_0);
            },
            Err(e) => {
                proof {
                    lemma_pairs_none_grows(r.token_fn(), rv, i + 1);
                }
                return Err(e);
            },
        }
        i += 1;
    }
    assert(rv.subrange(0, raws@.len() as int) =~= rv);
    Ok(out)
}

fn assign_into(m: &mut VarMap, ps: &Vec<(String, String)>)
    ensures
        final(m).pairs() == assign_all(old(m).pairs(), pair_views(ps@)),
{
    let ghost pv = pair_views(ps@);
    let mut i: usize = 0;
    assert(pv.subrange(0, 0) =~= Seq::<PairV>::empty());
    while i < ps.len()
        invariant
            pv == pair_views(ps@),
            i <= ps@.len(),
            m.pairs() == assign_all(old(m).pairs(), pv.subrange(0, i as int)),
        decreases ps@.len() - i,
    {
        assert(pv.subrange(0, i + 1).drop_last() =~= pv.subrange(0, i as int));
        m.insert(ps[i].0.as_str(), ps[i].1.as_str());
        i += 1;
    }
    assert(pv.subrange(0, ps@.len() as int) =~= pv);
}

proof fn lemma_assign_all_append(base: Seq<PairV>, a: Seq<PairV>, b: Seq<PairV>)
    ensures
        assign_all(assign_all(base, a), b) == assign_all(base, a + b),
    decreases b.len(),
{
    if b.len() == 0 {
        assert(a + b =~= a);
    } else {
        lemma_assign_all_append(base, a, b.drop_last());
        assert((a + b).drop_last() =~= a + b.drop_last());
    }
}

/// The resolved assignments of `env` and then `env_derived`.
fn resolve_assigns(r: &Resolver, e: &EmitBlock) -> (res: Result<VarMap, Error>)
    ensures
        res is Ok <==> (resolve_pairs(r.token_fn(), pair_views(e.env@)) is Some && resolve_pairs(
            r.token_fn(),
            pair_views(e.env_derived@),
        ) is Some),
        res matches Ok(m) ==> m.pairs() == assign_all(
            seq![],
            resolve_pairs(r.token_fn(), pair_views(e.env@))->Some_0 + resolve_pairs(
                r.token_fn(),
                pair_views(e.env_derived@),
            )->Some_0,
        ),
{
    let a = resolve_values(r, &e.env)?;
    let d = match resolve_values(r, &e.env_derived) {
        Ok(d) => d,
        Err(x) => return Err(x),
    };
    let mut m = VarMap::new();
    assign_into(&mut m, &a);
    assign_into(&mut m, &d);
    proof {
        lemma_assign_all_append(seq![], pair_views(a@), pair_views(d@));
    }
    Ok(m)
}

pub proof fn lemma_concat_step<A>(s: Seq<A>, i: int, f: spec_fn(A) -> Seq<char>)
    requires
        0 <= i < s.len(),
    ensures
        concat_map(s.subrange(0, i + 1), f) == concat_map(s.subrange(0, i), f) + f(s[i]),
{
    reveal(concat_map);
    assert(s.subrange(0, i + 1).drop_last() =~= s.subrange(0, i));
}

pub proof fn lemma_concat_push<A>(s: Seq<A>, x: A, f: spec_fn(A) -> Seq<char>)
    ensures
        concat_map(s.push(x), f) == concat_map(s, f) + f(x),
{
    reveal(concat_map);
    assert(s.push(x).drop_last() =~= s);
}

pub proof fn lemma_concat_empty<A>(s: Seq<A>, f: spec_fn(A) -> Seq<char>)
    requires
        s.len() == 0,
    ensures
        concat_map(s, f) == Seq::<char>::empty(),
{
    reveal(concat_map);
}

fn emit_env_block(em: &Emitter, out: &mut String, assigns: &VarMap)
    ensures
        final(out)@ == old(out)@ + env_block_text(em.shell, assigns.pairs()),
{
    let ordered = order_env_assignments(assigns);
    let ghost a = assigns.pairs();
    let ghost ord = env_order(a);
    let ghost f = |i: int| set_env_text(em.shell, a[i].0, a[i].1);
    let mut i: usize = 0;
    assert(ord.subrange(0, 0) =~= Seq::<int>::empty());
    proof {
        lemma_concat_empty(ord.subrange(0, 0), f);
    }
    assert(out@ =~= old(out)@ + concat_map(ord.subrange(0, 0), f));
    while i < ordered.len()
        invariant
            a == assigns.pairs(),
            ord == env_order(a),
            f == (|i: int| set_env_text(em.shell, a[i].0, a[i].1)),
            ordered@.len() == ord.len(),
            forall|q: int|
                0 <= q < ordered@.len() ==> (#[trigger] ordered@[q]).0@ == a[ord[q]].0
                    && ordered@[q].1@ == a[ord[q]].1,
            i <= ordered@.len(),
            out@ == old(out)@ + concat_map(ord.subrange(0, i as int), f),
        decreases ordered@.len() - i,
    {
        em.set_env(out, ordered[i].0.as_str(), ordered[i].1.as_str());
        proof {
            lemma_concat_step(ord, i as int, f);
            assert(out@ =~= old(out)@ + concat_map(ord.subrange(0, i + 1), f));
        }
        i += 1;
    }
    assert(ord.subrange(0, ord.len() as int) =~= ord);
}

fn emit_paths(em: &Emitter, out: &mut String, dirs: &Vec<String>, prepend: bool)
    ensures
        final(out)@ == old(out)@ + concat_map(strs(dirs@), |d: Seq<char>| path_text(em.shell, d, prepend)),
{
    let ghost dv = strs(dirs@);
    let ghost f = |d: Seq<char>| path_text(em.shell, d, prepend);
    let mut i: usize = 0;
    assert(dv.subrange(0, 0) =~= Seq::<Seq<char>>::empty());
    proof {
        lemma_concat_empty(dv.subrange(0, 0), f);
    }
    assert(out@ =~= old(out)@ + concat_map(dv.subrange(0, 0), f));
    while i < dirs.len()
        invariant
            dv == strs(dirs@),
            f == (|d: Seq<char>| path_text(em.shell, d, prepend)),
            i <= dirs@.len(),
            out@ == old(out)@ + concat_map(dv.subrange(0, i as int), f),
        decreases dirs@.len() - i,
    {
        if prepend {
            em.path_prepend_if_exists(out, dirs[i].as_str());
        } else {
            em.path_append_if_exists(out, dirs[i].as_str());
        }
        proof {
            lemma_concat_step(dv, i as int, f);
            assert(out@ =~= old(out)@ + concat_map(dv.subrange(0, i + 1), f));
        }
        i += 1;
    }
    assert(dv.subrange(0, dirs@.len() as int) =~= dv);
}

fn emit_sources(em: &Emitter, out: &mut String, files: &Vec<String>)
    ensures
        final(out)@ == old(out)@ + concat_map(dedup(strs(files@)), |p: Seq<char>| source_text(em.shell, p)),
{
    let ghost fv = strs(files@);
    let ghost f = |p: Seq<char>| source_text(em.shell, p);
    let mut seen: Vec<String> = Vec::new();
    let mut i: usize = 0;
    assert(fv.subrange(0, 0) =~= Seq::<Seq<char>>::empty());
    proof {
        lemma_concat_empty(strs(seen@), f);
    }
    assert(strs(seen@) =~= dedup(fv.subrange(0, 0)));
    assert(out@ =~= old(out)@ + concat_map(strs(seen@), f));
    while i < files.len()
        invariant
            fv == strs(files@),
            f == (|p: Seq<char>| source_text(em.shell, p)),
            i <= files@.len(),
            strs(seen@) == dedup(fv.subrange(0, i as int)),
            out@ == old(out)@ + concat_map(strs(seen@), f),
        decreases files@.len() - i,
    {
        assert(fv.subrange(0, i + 1).drop_last() =~= fv.subrange(0, i as int));
        if !crate::detect::contains_str(&seen, &files[i]) {
            let ghost sv = strs(seen@);
            em.source_if_exists(out, files[i].as_str());
            seen.push(files[i].clone());
            proof {
                assert(strs(seen@) =~= sv.push(fv[i as int]));
                lemma_concat_push(sv, fv[i as int], f);
            }
        }
        i += 1;
    }
    assert(fv.subrange(0, files@.len() as int) =~= fv);
}

pub fn emit_aliases_block(em: &Emitter, out: &mut String, aliases: &Vec<(String, String)>)
    ensures
        final(out)@ == old(out)@ + concat_map(pair_views(aliases@), |p: PairV| alias_text(em.shell, p.0, p.1)),
{
    let ghost av = pair_views(aliases@);
    let ghost f = |p: PairV| alias_text(em.shell, p.0, p.1);
    let mut i: usize = 0;
    assert(av.subrange(0, 0) =~= Seq::<PairV>::empty());
    proof {
        lemma_concat_empty(av.subrange(0, 0), f);
    }
    assert(out@ =~= old(out)@ + concat_map(av.subrange(0, 0), f));
    while i < aliases.len()
        invariant
            av == pair_views(aliases@),
            f == (|p: PairV| alias_text(em.shell, p.0, p.1)),
            i <= aliases@.len(),
            out@ == old(out)@ + concat_map(av.subrange(0, i as int), f),
        decreases aliases@.len() - i,
    {
        em.alias(out, aliases[i].0.as_str(), aliases[i].1.as_str());
        proof {
            lemma_concat_step(av, i as int, f);
            assert(out@ =~= old(out)@ + concat_map(av.subrange(0, i + 1), f));
        }
        i += 1;
    }
    assert(av.subrange(0, aliases@.len() as int) =~= av);
}

proof fn lemma_inits_none_grows(tv: Tokens, rv: Seq<EmitInit>, k: int)
    requires
        0 < k <= rv.len(),
        resolve_inits(tv, rv.subrange(0, k)) is None,
    ensures
        resolve_inits(tv, rv) is None,
    decreases rv.len() - k,
{
    if k < rv.len() {
        assert(rv.subrange(0, k + 1).drop_last() =~= rv.subrange(0, k));
        lemma_inits_none_grows(tv, rv, k + 1);
    } else {
        assert(rv.subrange(0, k) =~= rv);
    }
}

/// Resolves and emits each init command; fails on the first that does not resolve.
fn emit_inits(em: &Emitter, out: &mut String, r: &Resolver, inits: &Vec<EmitInit>) -> (res: Result<(), Error>)
    ensures
        res is Ok <==> resolve_inits(r.token_fn(), inits@) is Some,
        res is Ok ==> final(out)@ == old(out)@ + concat_map(
            resolve_inits(r.token_fn(), inits@)->Some_0,
            |i: InitV| init_text(em.shell, i.command, i.args, i.out_string),
        ),
{
    let ghost tv = r.token_fn();
    let ghost f = |i: InitV| init_text(em.shell, i.command, i.args, i.out_string);
    let mut i: usize = 0;
    assert(inits@.subrange(0, 0) =~= Seq::<EmitInit>::empty());
    proof {
        lemma_concat_empty(resolve_inits(tv, inits@.subrange(0, 0))->Some_0, f);
    }
    assert(out@ =~= old(out)@ + concat_map(resolve_inits(tv, inits@.subrange(0, 0))->Some_0, f));
    while i < inits.len()
        invariant
            tv == r.token_fn(),
            f == (|i: InitV| init_text(em.shell, i.command, i.args, i.out_string)),
            i <= inits@.len(),
            resolve_inits(tv, inits@.subrange(0, i as int)) is Some,
            out@ == old(out)@ + concat_map(resolve_inits(tv, inits@.subrange(0, i as int))->Some_0, f),
        decreases inits@.len() - i,
    {
        assert(inits@.subrange(0, i + 1).drop_last() =~= inits@.subrange(0, i as int));
        let init = &inits[i];
        let c = match r.resolve(init.command.as_str()) {
            Ok(c) => c,
            Err(e) => {
                proof {
                    lemma_inits_none_grows(tv, inits@, i + 1);
                }
                return Err(e);
            },
        };
        let args = match resolve_each(r, &init.args) {
            Ok(a) => a,
            Err(e) => {
                proof {
                    lemma_inits_none_grows(tv, inits@, i + 1);
                }
                return Err(e);
            },
        };
        em.init_eval_if_exists(out, c.as_str(), &args, init.pwsh_out_string);
        proof {
            let prev = resolve_inits(tv, inits@.subrange(0, i as int))->Some_0;
            let cur = resolve_inits(tv, inits@.subrange(0, i + 1))->Some_0;
            assert(cur == prev.push(InitV { command: c@, args: strs(args@), out_string: init.pwsh_out_string }));
            lemma_concat_push(prev, InitV { command: c@, args: strs(args@), out_string: init.pwsh_out_string }, f);
            assert(args@.map_values(|a: String| a@) == strs(args@));
            assert(out@ =~= old(out)@ + concat_map(cur, f));
        }
        i += 1;
    }
    assert(inits@.subrange(0, inits@.len() as int) =~= inits@);
    Ok(())
}

proof fn lemma_block_parts(tv: Tokens, e: EmitBlock)
    ensures
        resolve_block(tv, e) is Some <==> (resolve_pairs(tv, pair_views(e.env@)) is Some
            && resolve_pairs(tv, pair_views(e.env_derived@)) is Some && resolve_list(
            tv,
            strs(e.paths.prepend_if_exists@),
        ) is Some && resolve_list(tv, strs(e.paths.append_if_exists@)) is Some && resolve_list(
            tv,
            strs(e.functions.files@),
        ) is Some && resolve_list(tv, strs(e.source.files@)) is Some && resolve_pairs(
            tv,
            sorted_pairs(e.aliases@),
        ) is Some && resolve_inits(tv, e.init@) is Some),
        resolve_block(tv, e) is Some ==> resolve_block(tv, e)->Some_0 == (BlockV {
            assigns: assign_all(
                seq![],
                resolve_pairs(tv, pair_views(e.env@))->Some_0 + resolve_pairs(
                    tv,
                    pair_views(e.env_derived@),
                )->Some_0,
            ),
            prepend: resolve_list(tv, strs(e.paths.prepend_if_exists@))->Some_0,
            append: resolve_list(tv, strs(e.paths.append_if_exists@))->Some_0,
            functions: resolve_list(tv, strs(e.functions.files@))->Some_0,
            sources: resolve_list(tv, strs(e.source.files@))->Some_0,
            aliases: resolve_pairs(tv, sorted_pairs(e.aliases@))->Some_0,
            inits: resolve_inits(tv, e.init@)->Some_0,
        }),
{
    reveal(resolve_block);
}

/// Emits the code of one detected module.
pub fn emit_module_into(em: &Emitter, out: &mut String, ctx: &ContextEnv, vars: &VarMap, detect: &VarMap, emit: &EmitBlock) -> (r: Result<(), Error>)
    ensures
        r is Ok <==> resolve_block(module_tokens(*ctx, vars@, detect@), *emit) is Some,
        r is Ok ==> final(out)@ == old(out)@ + block_text(
            em.shell,
            *emit,
            resolve_block(module_tokens(*ctx, vars@, detect@), *emit)->Some_0,
        ),
{
    let res = Resolver::new(ctx, vars).with_detect(detect);
    let ghost tv = module_tokens(*ctx, vars@, detect@);
    let ghost e = *emit;
    assert(res.token_fn() == tv);
    proof {
        lemma_block_parts(tv, e);
    }
    let assigns = resolve_assigns(&res, emit)?;
    let pre = resolve_each(&res, &emit.paths.prepend_if_exists)?;
    let app = resolve_each(&res, &emit.paths.append_if_exists)?;
    let funcs = resolve_each(&res, &emit.functions.files)?;
    let srcs = resolve_each(&res, &emit.source.files)?;
    let sorted_aliases = sort_pairs(&emit.aliases);
    let aliases = resolve_values(&res, &sorted_aliases)?;
    let ghost o0 = out@;
    emit_env_block(em, out, &assigns);
    let ghost o1 = out@;
    emit_middle(em, out, emit, &pre, &app, &funcs, &srcs, &aliases);
    let ghost o5 = out@;
    let c6 = emit.init.len() > 0;
    if c6 {
        em.blank(out);
        emit_inits(em, out, &res, &emit.init)?;
    } else {
        assert(emit.init@ =~= Seq::<EmitInit>::empty());
    }
    proof {
        let b = resolve_block(tv, e)->Some_0;
        let t6 = concat_map(b.inits, |i: InitV| init_text(em.shell, i.command, i.args, i.out_string));
        lemma_section(o5, c6, t6, out@);
        let env = env_block_text(em.shell, b.assigns);
        let mid = middle_text(em.shell, e, b.prepend, b.append, b.functions, b.sources, b.aliases);
        lemma_assoc(o0, env, mid);
        lemma_assoc(o0, env + mid, nl_if(c6, t6));
        lemma_mid_text(em.shell, e, b);
    }
    Ok(())
}

proof fn lemma_mid_text(shell: crate::config::Shell, e: EmitBlock, b: BlockV)
    ensures
        block_text(shell, e, b) == env_block_text(shell, b.assigns) + middle_text(
            shell,
            e,
            b.prepend,
            b.append,
            b.functions,
            b.sources,
            b.aliases,
        ) + nl_if(
            e.init@.len() > 0,
            concat_map(b.inits, |i: InitV| init_text(shell, i.command, i.args, i.out_string)),
        ),
{
    reveal(block_text);
    let a = env_block_text(shell, b.assigns);
    let n2 = nl_if(
        e.paths.prepend_if_exists@.len() > 0 || e.paths.append_if_exists@.len() > 0,
        concat_map(b.prepend, |d: Seq<char>| path_text(shell, d, true)) + concat_map(
            b.append,
            |d: Seq<char>| path_text(shell, d, false),
        ),
    );
    let n3 = nl_if(
        e.functions.files@.len() > 0,
        concat_map(dedup(b.functions), |p: Seq<char>| source_text(shell, p)),
    );
    let n4 = nl_if(
        e.source.files@.len() > 0,
        concat_map(dedup(b.sources), |p: Seq<char>| source_text(shell, p)),
    );
    let n5 = nl_if(
        e.aliases@.len() > 0,
        concat_map(b.aliases, |p: PairV| alias_text(shell, p.0, p.1)),
    );
    let n6 = nl_if(
        e.init@.len() > 0,
        concat_map(b.inits, |i: InitV| init_text(shell, i.command, i.args, i.out_string)),
    );
    lemma_assoc5(a, n2, n3, n4, n5, n6);
}

proof fn lemma_assoc5(a: Seq<char>, b: Seq<char>, c: Seq<char>, d: Seq<char>, e: Seq<char>, f: Seq<char>)
    ensures
        a + b + c + d + e + f == a + (b + c + d + e) + f,
{
    assert(a + b + c + d + e + f =~= a + (b + c + d + e) + f);
}

pub open spec fn middle_text(shell: crate::config::Shell, e: EmitBlock, pre: Seq<Seq<char>>, app: Seq<Seq<char>>, funcs: Seq<Seq<char>>, srcs: Seq<Seq<char>>, aliases: Seq<PairV>) -> Seq<char> {
    nl_if(
        e.paths.prepend_if_exists@.len() > 0 || e.paths.append_if_exists@.len() > 0,
        concat_map(pre, |d: Seq<char>| path_text(shell, d, true)) + concat_map(
            app,
            |d: Seq<char>| path_text(shell, d, false),
        ),
    ) + nl_if(
        e.functions.files@.len() > 0,
        concat_map(dedup(funcs), |p: Seq<char>| source_text(shell, p)),
    ) + nl_if(
        e.source.files@.len() > 0,
        concat_map(dedup(srcs), |p: Seq<char>| source_text(shell, p)),
    ) + nl_if(
        e.aliases@.len() > 0,
        concat_map(aliases, |p: PairV| alias_text(shell, p.0, p.1)),
    )
}

proof fn lemma_section(o: Seq<char>, cond: bool, body: Seq<char>, out: Seq<char>)
    requires
        cond ==> out == o.push('\n') + body,
        !cond ==> out == o,
    ensures
        out == o + nl_if(cond, body),
{
    if cond {
        assert(out =~= o + nl_if(cond, body));
    } else {
        assert(out =~= o + nl_if(cond, body));
    }
}

pub proof fn lemma_assoc(a: Seq<char>, b: Seq<char>, c: Seq<char>)
    ensures
        a + b + c == a + (b + c),
{
    assert(a + b + c =~= a + (b + c));
}

fn emit_middle(em: &Emitter, out: &mut String, emit: &EmitBlock, pre: &Vec<String>, app: &Vec<String>, funcs: &Vec<String>, srcs: &Vec<String>, aliases: &Vec<(String, String)>)
    ensures
        final(out)@ == old(out)@ + middle_text(
            em.shell,
            *emit,
            strs(pre@),
            strs(app@),
            strs(funcs@),
            strs(srcs@),
            pair_views(aliases@),
        ),
{
    let ghost e = *emit;
    let ghost o1 = out@;
    let ghost x = concat_map(strs(pre@), |d: Seq<char>| path_text(em.shell, d, true));
    let ghost y = concat_map(strs(app@), |d: Seq<char>| path_text(em.shell, d, false));
    let c2 = emit.paths.prepend_if_exists.len() > 0 || emit.paths.append_if_exists.len() > 0;
    if c2 {
        em.blank(out);
        emit_paths(em, out, pre, true);
        emit_paths(em, out, app, false);
        proof {
            lemma_assoc(o1.push('\n'), x, y);
        }
    }
    proof {
        lemma_section(o1, c2, x + y, out@);
    }
    let ghost o2 = out@;
    let ghost t3 = concat_map(dedup(strs(funcs@)), |p: Seq<char>| source_text(em.shell, p));
    let c3 = emit.functions.files.len() > 0;
    if c3 {
        em.blank(out);
        emit_sources(em, out, funcs);
    }
    proof {
        lemma_section(o2, c3, t3, out@);
    }
    let ghost o3 = out@;
    let ghost t4 = concat_map(dedup(strs(srcs@)), |p: Seq<char>| source_text(em.shell, p));
    let c4 = emit.source.files.len() > 0;
    if c4 {
        em.blank(out);
        emit_sources(em, out, srcs);
    }
    proof {
        lemma_section(o3, c4, t4, out@);
    }
    let ghost o4 = out@;
    let ghost t5 = concat_map(pair_views(aliases@), |p: PairV| alias_text(em.shell, p.0, p.1));
    let c5 = emit.aliases.len() > 0;
    if c5 {
        em.blank(out);
        emit_aliases_block(em, out, aliases);
    }
    proof {
        lemma_section(o4, c5, t5, out@);
        let n2 = nl_if(c2, x + y);
        let n3 = nl_if(c3, t3);
        let n4 = nl_if(c4, t4);
        let n5 = nl_if(c5, t5);
        lemma_assoc(o1, n2, n3);
        lemma_assoc(o1, n2 + n3, n4);
        lemma_assoc(o1, n2 + n3 + n4, n5);
        assert(middle_text(em.shell, e, strs(pre@), strs(app@), strs(funcs@), strs(srcs@), pair_views(aliases@)) == n2 + n3 + n4 + n5);
    }
}

/// The directories in front of `parts` and behind it, in turn, where each
/// is a non-empty directory that `parts` does not hold yet.
pub open spec fn prepend_dirs(h: HostView, parts: Seq<Seq<char>>, ds: Seq<Seq<char>>) -> Seq<Seq<char>>
    decreases ds.len(),
{
    if ds.len() == 0 {
        parts
    } else {
        let p = prepend_dirs(h, parts, ds.drop_last());
        let d = ds.last();
        if d.len() > 0 && h.is_dir(d) && !p.contains(d) {
            seq![d] + p
        } else {
            p
        }
    }
}

pub open spec fn append_dirs(h: HostView, parts: Seq<Seq<char>>, ds: Seq<Seq<char>>) -> Seq<Seq<char>>
    decreases ds.len(),
{
    if ds.len() == 0 {
        parts
    } else {
        let p = append_dirs(h, parts, ds.drop_last());
        let d = ds.last();
        if d.len() > 0 && h.is_dir(d) && !p.contains(d) {
            p.push(d)
        } else {
            p
        }
    }
}

pub open spec fn join_with(parts: Seq<Seq<char>>, sep: char) -> Seq<char>
    decreases parts.len(),
{
    if parts.len() == 0 {
        seq![]
    } else if parts.len() == 1 {
        parts[0]
    } else {
        join_with(parts.drop_last(), sep) + seq![sep] + parts.last()
    }
}

pub open spec fn env_applied(base: Seq<PairV>, a: Seq<PairV>) -> Seq<PairV> {
    assign_all(base, env_order(a).map_values(|i: int| a[i]))
}

pub fn join_parts(parts: &Vec<String>, sep: char) -> (r: String)
    ensures
        r@ == join_with(strs(parts@), sep),
{
    let ghost pv = strs(parts@);
    let mut out = String::new();
    let mut i: usize = 0;
    assert(pv.subrange(0, 0) =~= Seq::<Seq<char>>::empty());
    while i < parts.len()
        invariant
            pv == strs(parts@),
            i <= parts@.len(),
            out@ == join_with(pv.subrange(0, i as int), sep),
        decreases parts@.len() - i,
    {
        assert(pv.subrange(0, i + 1).drop_last() =~= pv.subrange(0, i as int));
        if i > 0 {
            crate::text::push_char(&mut out, sep);
        }
        out.append(parts[i].as_str());
        assert(out@ =~= join_with(pv.subrange(0, i + 1), sep));
        i += 1;
    }
    assert(pv.subrange(0, parts@.len() as int) =~= pv);
    out
}

/// The runtime assignments after a module's environment is applied, and its
/// PATH directories resolved against them; `None` where a value does not resolve.
pub open spec fn effect_dirs_of(ctx: ContextEnv, rt: Seq<PairV>, detect: Vars, e: EmitBlock) -> Option<(Seq<PairV>, Seq<Seq<char>>, Seq<Seq<char>>)> {
    let tv1 = module_tokens(ctx, map_of(rt), detect);
    match (resolve_pairs(tv1, pair_views(e.env@)), resolve_pairs(tv1, pair_views(e.env_derived@))) {
        (Some(a), Some(d)) => {
            let rt1 = env_applied(rt, assign_all(seq![], a + d));
            let tv2 = module_tokens(ctx, map_of(rt1), detect);
            match (
                resolve_list(tv2, strs(e.paths.prepend_if_exists@)),
                resolve_list(tv2, strs(e.paths.append_if_exists@)),
            ) {
                (Some(pre), Some(app)) => Some((rt1, pre, app)),
                _ => None,
            }
        },
        _ => None,
    }
}

/// The runtime assignments after a module activates: its environment in
/// dependency order, then PATH (each entry once, first place kept) with its
/// existing new directories, written under both `PATH` and `Path`.
pub open spec fn effects_of(ctx: ContextEnv, rt: Seq<PairV>, detect: Vars, e: EmitBlock, h: HostView) -> Option<Seq<PairV>> {
    match effect_dirs_of(ctx, rt, detect, e) {
        Some((rt1, pre, app)) => {
            let sep = path_sep(ctx.platform);
            let cur = match path_value(ctx.platform, map_of(rt1)) {
                Some(v) => v,
                None => seq![],
            };
            let parts = append_dirs(h, prepend_dirs(h, dedup(clean_parts(split_on(cur, sep))), pre), app);
            let v = join_with(parts, sep);
            Some(assign_pair(assign_pair(rt1, "PATH"@, v), "Path"@, v))
        },
        None => None,
    }
}

fn apply_env_part(ctx: &ContextEnv, rt: &mut VarMap, detect: &VarMap, emit: &EmitBlock) -> (r: Result<(), Error>)
    ensures
        r is Ok <==> ({
            let tv1 = module_tokens(*ctx, map_of(old(rt).pairs()), detect@);
            resolve_pairs(tv1, pair_views(emit.env@)) is Some && resolve_pairs(tv1, pair_views(emit.env_derived@)) is Some
        }),
        r is Ok ==> ({
            let tv1 = module_tokens(*ctx, map_of(old(rt).pairs()), detect@);
            final(rt).pairs() == env_applied(
                old(rt).pairs(),
                assign_all(seq![], resolve_pairs(tv1, pair_views(emit.env@))->Some_0 + resolve_pairs(tv1, pair_views(emit.env_derived@))->Some_0),
            )
        }),
{
    let snap = rt.duplicate();
    let res = Resolver::new(ctx, &snap).with_detect(detect);
    assert(res.token_fn() == module_tokens(*ctx, map_of(old(rt).pairs()), detect@));
    let assigns = resolve_assigns(&res, emit)?;
    let ordered = order_env_assignments(&assigns);
    proof {
        let a = assigns.pairs();
        assert(pair_views(ordered@) =~= env_order(a).map_values(|i: int| a[i]));
    }
    assign_into(rt, &ordered);
    Ok(())
}

/// The directories that a module's PATH changes name, resolved as they
/// will be when its effects are applied: the ones to check on the host.
pub fn effect_dirs(ctx: &ContextEnv, rt: &VarMap, detect: &VarMap, emit: &EmitBlock) -> (r: Result<Vec<String>, Error>)
    ensures
        r is Ok <==> effect_dirs_of(*ctx, rt.pairs(), detect@, *emit) is Some,
        r matches Ok(v) ==> strs(v@) == effect_dirs_of(*ctx, rt.pairs(), detect@, *emit)->Some_0.1
            + effect_dirs_of(*ctx, rt.pairs(), detect@, *emit)->Some_0.2,
{
    let mut work = rt.duplicate();
    apply_env_part(ctx, &mut work, detect, emit)?;
    let res = Resolver::new(ctx, &work).with_detect(detect);
    let mut pre = resolve_each(&res, &emit.paths.prepend_if_exists)?;
    let mut app = resolve_each(&res, &emit.paths.append_if_exists)?;
    let ghost p1 = strs(pre@);
    let ghost a1 = strs(app@);
    pre.append(&mut app);
    assert(strs(pre@) =~= p1 + a1);
    Ok(pre)
}

/// Applies a detected module's effects to the runtime variables.
pub fn apply_emit_effects_to_runtime(ctx: &ContextEnv, rt: &mut VarMap, detect: &VarMap, emit: &EmitBlock, h: &HostView) -> (r: Result<(), Error>)
    ensures
        r is Ok <==> effects_of(*ctx, old(rt).pairs(), detect@, *emit, *h) is Some,
        r is Ok ==> final(rt).pairs() == effects_of(*ctx, old(rt).pairs(), detect@, *emit, *h)->Some_0,
{
    apply_env_part(ctx, rt, detect, emit)?;
    let snap = rt.duplicate();
    let res = Resolver::new(ctx, &snap).with_detect(detect);
    let pre = resolve_each(&res, &emit.paths.prepend_if_exists)?;
    let app = resolve_each(&res, &emit.paths.append_if_exists)?;
    let sep = if ctx.platform == Platform::Windows {
        ';'
    } else {
        ':'
    };
    let cur = match crate::detect::get_path_value(ctx.platform, &snap) {
        Some(v) => v,
        None => String::new(),
    };
    let listed = crate::detect::split_clean(cur.as_str(), sep);
    let mut parts = crate::detect::dedup_strings(&listed);
    let ghost pv = strs(pre@);
    let ghost base = strs(parts@);
    let mut i: usize = 0;
    assert(pv.subrange(0, 0) =~= Seq::<Seq<char>>::empty());
    while i < pre.len()
        invariant
            pv == strs(pre@),
            i <= pre@.len(),
            strs(parts@) == prepend_dirs(*h, base, pv.subrange(0, i as int)),
        decreases pre@.len() - i,
    {
        assert(pv.subrange(0, i + 1).drop_last() =~= pv.subrange(0, i as int));
        let d = &pre[i];
        if !d.as_str().is_empty() && h.has_dir(d) && !crate::detect::contains_str(&parts, d) {
            let ghost before = strs(parts@);
            parts.insert(0, d.clone());
            assert(strs(parts@) =~= seq![d@] + before);
        }
        i += 1;
    }
    assert(pv.subrange(0, pre@.len() as int) =~= pv);
    let ghost av = strs(app@);
    let ghost mid = strs(parts@);
    let mut j: usize = 0;
    assert(av.subrange(0, 0) =~= Seq::<Seq<char>>::empty());
    while j < app.len()
        invariant
            av == strs(app@),
            j <= app@.len(),
            strs(parts@) == append_dirs(*h, mid, av.subrange(0, j as int)),
        decreases app@.len() - j,
    {
        assert(av.subrange(0, j + 1).drop_last() =~= av.subrange(0, j as int));
        let d = &app[j];
        if !d.as_str().is_empty() && h.has_dir(d) && !crate::detect::contains_str(&parts, d) {
            let ghost before = strs(parts@);
            parts.push(d.clone());
            assert(strs(parts@) =~= before.push(d@));
        }
        j += 1;
    }
    assert(av.subrange(0, app@.len() as int) =~= av);
    let v = join_parts(&parts, sep);
    rt.insert("PATH", v.as_str());
    rt.insert("Path", v.as_str());
    Ok(())
}

/// The entries in ascending key order, each key once, the last value kept.
pub fn sort_pairs(m: &StrMap) -> (r: Vec<(String, String)>)
    ensures
        pair_views(r@) == sorted_pairs(m@),
{
    let mut vm = VarMap::new();
    assign_into(&mut vm, m);
    vm.to_pairs()
}

} // verus!
