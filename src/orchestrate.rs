//! One group's run: eligible modules in dependency order, the activation
//! gate, and the effects of each module that activates.

use vstd::prelude::*;
use crate::activate::{apply_emit_effects_to_runtime, block_text, effects_of, emit_module_into, module_tokens, resolve_block};
use crate::config::{AppModule, CloudModule, EmitBlock, Platform, TemplateModule};
use crate::context::ContextEnv;
use crate::deps::{
    key_of, module_key, node_views, normalize_requires_list, normalized_key,
    requires_satisfied, topo_order, topo_sort_group, views_of, ActiveSet, DepNode, DepNodeV,
};
use crate::detect::{strs, HostView};
use crate::emit::{comment_text, Emitter};
use crate::error::Error;
use crate::text::copy_str;
use crate::varmap::VarMap;

verus! {

/// A detected app module with its detection record.
#[derive(Debug)]
pub struct DetectedApp {
    pub name: String,
    pub detect: VarMap,
    pub module: AppModule,
}

/// A detected cloud module with its detection record.
#[derive(Debug)]
pub struct DetectedCloud {
    pub name: String,
    pub detect: VarMap,
    pub module: CloudModule,
}

/// A template module's rendered text.
#[derive(Debug, Clone)]
pub struct RenderedTemplate {
    pub name: String,
    pub text: String,
}

/// What the dependency order needs of a module, whatever its group.
#[derive(Debug, Clone)]
pub struct ModuleSpec {
    pub name: String,
    pub enabled: bool,
    pub priority: i32,
    pub requires: Vec<String>,
    pub platforms: Vec<Platform>,
}

impl ModuleSpec {
    pub fn from_app(name: &String, m: &AppModule) -> (r: ModuleSpec)
        ensures
            r.name@ == name@,
            r.enabled == m.enabled,
            r.priority == m.priority,
            strs(r.requires@) == strs(m.requires@),
            r.platforms@ == m.platforms@,
    {
        ModuleSpec {
            name: name.clone(),
            enabled: m.enabled,
            priority: m.priority,
            requires: crate::deps::copy_strings(&m.requires),
            platforms: copy_platforms(&m.platforms),
        }
    }

    pub fn from_cloud(name: &String, m: &CloudModule) -> (r: ModuleSpec)
        ensures
            r.name@ == name@,
            r.enabled == m.enabled,
            r.priority == m.priority,
            strs(r.requires@) == strs(m.requires@),
            r.platforms@ == m.platforms@,
    {
        ModuleSpec {
            name: name.clone(),
            enabled: m.enabled,
            priority: m.priority,
            requires: crate::deps::copy_strings(&m.requires),
            platforms: copy_platforms(&m.platforms),
        }
    }

    pub fn from_template(name: &String, m: &TemplateModule) -> (r: ModuleSpec)
        ensures
            r.name@ == name@,
            r.enabled == m.enabled,
            r.priority == m.priority,
            strs(r.requires@) == strs(m.requires@),
            r.platforms@ == m.platforms@,
    {
        ModuleSpec {
            name: name.clone(),
            enabled: m.enabled,
            priority: m.priority,
            requires: crate::deps::copy_strings(&m.requires),
            platforms: copy_platforms(&m.platforms),
        }
    }
}

fn copy_platforms(v: &Vec<Platform>) -> (r: Vec<Platform>)
    ensures
        r@ == v@,
{
    let mut r: Vec<Platform> = Vec::new();
    let mut i: usize = 0;
    while i < v.len()
        invariant
            i <= v@.len(),
            r@ == v@.subrange(0, i as int),
        decreases v@.len() - i,
    {
        r.push(v[i]);
        i += 1;
        assert(r@ =~= v@.subrange(0, i as int));
    }
    assert(v@.subrange(0, v@.len() as int) =~= v@);
    r
}

pub open spec fn supports(platforms: Seq<Platform>, p: Platform) -> bool {
    platforms.len() == 0 || platforms.contains(p)
}

/// Whether a module may run on the platform: it lists none, or this one.
pub fn module_supports_platform(platforms: &Vec<Platform>, p: Platform) -> (r: bool)
    ensures
        r == supports(platforms@, p),
{
    if platforms.len() == 0 {
        return true;
    }
    let mut i: usize = 0;
    while i < platforms.len()
        invariant
            i <= platforms@.len(),
            forall|k: int| 0 <= k < i ==> platforms@[k] != p,
        decreases platforms@.len() - i,
    {
        if platforms[i] == p {
            return true;
        }
        i += 1;
    }
    false
}

pub open spec fn eligible(m: ModuleSpec, p: Platform) -> bool {
    m.enabled && supports(m.platforms@, p)
}

/// The modules that take part on the platform, in the given order.
pub open spec fn eligible_modules(mods: Seq<ModuleSpec>, p: Platform) -> Seq<ModuleSpec>
    decreases mods.len(),
{
    if mods.len() == 0 {
        seq![]
    } else if eligible(mods.last(), p) {
        eligible_modules(mods.drop_last(), p).push(mods.last())
    } else {
        eligible_modules(mods.drop_last(), p)
    }
}

pub open spec fn names_unique(mods: Seq<ModuleSpec>) -> bool {
    forall|i: int, j: int|
        0 <= i < mods.len() && 0 <= j < mods.len() && (#[trigger] mods[i]).name@ == (
        #[trigger] mods[j]).name@ ==> i == j
}

pub open spec fn all_keys_normalize(reqs: Seq<Seq<char>>) -> bool {
    forall|i: int| 0 <= i < reqs.len() ==> (#[trigger] normalized_key(reqs[i])) is Some
}

/// The dependency node of a module whose `requires` all normalise.
pub open spec fn node_of(group: Seq<char>, m: ModuleSpec) -> DepNodeV {
    DepNodeV {
        key: key_of(group, m.name@),
        name: m.name@,
        priority: m.priority as int,
        requires: strs(m.requires@).map_values(|r: Seq<char>| normalized_key(r)->Some_0),
    }
}

proof fn lemma_key_injective(g: Seq<char>, a: Seq<char>, b: Seq<char>)
    requires
        key_of(g, a) == key_of(g, b),
    ensures
        a == b,
{
    let n = g.len() + "."@.len();
    assert(key_of(g, a).subrange(n as int, key_of(g, a).len() as int) =~= a);
    assert(key_of(g, b).subrange(n as int, key_of(g, b).len() as int) =~= b);
}

/// The nodes of a group's eligible modules, where every `requires` entry normalises.
pub open spec fn group_nodes(group: Seq<char>, mods: Seq<ModuleSpec>, p: Platform) -> Seq<DepNodeV> {
    eligible_modules(mods, p).map_values(|m: ModuleSpec| node_of(group, m))
}

pub open spec fn requires_normalize(mods: Seq<ModuleSpec>, p: Platform) -> bool {
    forall|i: int|
        0 <= i < eligible_modules(mods, p).len() ==> all_keys_normalize(
            strs((#[trigger] eligible_modules(mods, p)[i]).requires@),
        )
}

/// Every key the node requires is active.
pub open spec fn gate_open(active: Set<Seq<char>>, n: DepNode) -> bool {
    forall|k: int| 0 <= k < n.requires@.len() ==> active.contains(#[trigger] n.requires@[k]@)
}

/// A group's modules in dependency order, and how far the run has got.
pub struct GroupRun {
    pub group: String,
    pub order: Vec<DepNode>,
    pub pos: usize,
}

proof fn lemma_eligible_push(mods: Seq<ModuleSpec>, i: int, p: Platform)
    requires
        0 <= i < mods.len(),
    ensures
        eligible_modules(mods.subrange(0, i + 1), p) == if eligible(mods[i], p) {
            eligible_modules(mods.subrange(0, i), p).push(mods[i])
        } else {
            eligible_modules(mods.subrange(0, i), p)
        },
{
    assert(mods.subrange(0, i + 1).drop_last() =~= mods.subrange(0, i));
}

impl GroupRun {
    /// Orders a group's eligible modules; fails on a malformed `requires`
    /// entry, an unknown same-group module, or a cycle.
    pub fn start(group: &str, mods: &Vec<ModuleSpec>, p: Platform) -> (r: Result<GroupRun, Error>)
        requires
            names_unique(mods@),
        ensures
            !requires_normalize(mods@, p) ==> (r matches Err(e) && e is InvalidRequire),
            requires_normalize(mods@, p) ==> ({
                let v = group_nodes(group@, mods@, p);
                &&& (r is Ok <==> (!crate::deps::has_unknown_dep(v, group@) && topo_order(v, group@).len() == v.len()))
                &&& (r matches Ok(run) ==> run.pos == 0 && run.group@ == group@ && node_views(run.order@) == topo_order(v, group@))
            }),
    {
        let mut nodes: Vec<DepNode> = Vec::new();
        let ghost g = group@;
        let ghost mut src: Seq<int> = seq![];
        let mut i: usize = 0;
        assert(mods@.subrange(0, 0) =~= Seq::<ModuleSpec>::empty());
        while i < mods.len()
            invariant
                g == group@,
                i <= mods@.len(),
                names_unique(mods@),
                node_views(nodes@) == eligible_modules(mods@.subrange(0, i as int), p).map_values(|m: ModuleSpec| node_of(g, m)),
                src.len() == nodes@.len(),
                forall|k: int| 0 <= k < src.len() ==> 0 <= #[trigger] src[k] < i && nodes@[k].name@ == mods@[src[k]].name@,
                forall|k: int, l: int| 0 <= k < l < src.len() ==> src[k] < src[l],
                forall|k: int| 0 <= k < nodes@.len() ==> (#[trigger] nodes@[k]).key@ == key_of(g, nodes@[k].name@),
                forall|k: int|
                    0 <= k < eligible_modules(mods@.subrange(0, i as int), p).len() ==> all_keys_normalize(
                        strs((#[trigger] eligible_modules(mods@.subrange(0, i as int), p)[k]).requires@),
                    ),
            decreases mods@.len() - i,
        {
            proof {
                lemma_eligible_push(mods@, i as int, p);
            }
            let m = &mods[i];
            if m.enabled && module_supports_platform(&m.platforms, p) {
                let reqs = match normalize_requires_list(&m.requires) {
                    Ok(r) => r,
                    Err(e) => {
                        proof {
                            let k = eligible_modules(mods@.subrange(0, i as int), p).len() as int;
                            assert(eligible_modules(mods@.subrange(0, i + 1), p)[k] == *m);
                            lemma_eligible_rest(mods@, i + 1, p, k);
                            let w = choose|w: int| 0 <= w < m.requires@.len() && normalized_key(m.requires@[w]@) is None && (forall|q: int| 0 <= q < w ==> (#[trigger] normalized_key(m.requires@[q]@)) is Some) && (e == Error::InvalidRequire { raw: m.requires@[w] });
                            assert(strs(m.requires@)[w] == m.requires@[w]@);
                            assert(!all_keys_normalize(strs(m.requires@)));
                            assert(!requires_normalize(mods@, p));
                        }
                        return Err(e);
                    },
                };
                let key = module_key(group, m.name.as_str());
                let node = DepNode { key, name: m.name.clone(), priority: m.priority, requires: reqs };
                assert(node@ == node_of(g, *m)) by {
                    assert(views_of(node.requires@) =~= strs(m.requires@).map_values(|r: Seq<char>| normalized_key(r)->Some_0));
                }
                let ghost nv = node_views(nodes@);
                nodes.push(node);
                proof {
                    assert(node_views(nodes@) =~= nv.push(node_of(g, *m)));
                    src = src.push(i as int);
                }
            }
            i += 1;
        }
        assert(mods@.subrange(0, mods@.len() as int) =~= mods@);
        proof {
            let v = node_views(nodes@);
            assert forall|a: int, b: int| 0 <= a < v.len() && 0 <= b < v.len() && (#[trigger] v[a]).key == (#[trigger] v[b]).key implies a == b by {
                lemma_key_injective(g, nodes@[a].name@, nodes@[b].name@);
                if a != b {
                    if a < b {
                        assert(src[a] < src[b]);
                    } else {
                        assert(src[b] < src[a]);
                    }
                }
            }
        }
        let order = topo_sort_group(nodes, group)?;
        Ok(GroupRun { group: copy_str(group), order, pos: 0 })
    }

    pub open spec fn wf(&self) -> bool {
        self.pos <= self.order@.len()
    }

    /// The next node whose `requires` are all active, skipping those that are not.
    pub fn next(&mut self, active: &ActiveSet) -> (r: Option<usize>)
        requires
            old(self).wf(),
        ensures
            final(self).wf(),
            final(self).order == old(self).order,
            final(self).group == old(self).group,
            r matches Some(i) ==> old(self).pos <= i < old(self).order@.len() && final(self).pos == i + 1
                && gate_open(active@, old(self).order@[i as int])
                && forall|j: int| old(self).pos <= j < i ==> !gate_open(active@, #[trigger] old(self).order@[j]),
            r is None ==> final(self).pos == old(self).order@.len() && forall|j: int| old(self).pos <= j < old(self).order@.len() ==> !gate_open(active@, #[trigger] old(self).order@[j]),
    {
        while self.pos < self.order.len()
            invariant
                self.pos <= self.order@.len(),
                self.order == old(self).order,
                self.group == old(self).group,
                old(self).pos <= self.pos,
                forall|j: int| old(self).pos <= j < self.pos ==> !gate_open(active@, #[trigger] old(self).order@[j]),
            decreases self.order@.len() - self.pos,
        {
            let i = self.pos;
            self.pos = self.pos + 1;
            if requires_satisfied(active, &self.order[i].requires) {
                return Some(i);
            }
        }
        None
    }
}

proof fn lemma_eligible_rest(mods: Seq<ModuleSpec>, n: int, p: Platform, k: int)
    requires
        0 <= n <= mods.len(),
        0 <= k < eligible_modules(mods.subrange(0, n), p).len(),
    ensures
        k < eligible_modules(mods, p).len(),
        eligible_modules(mods, p)[k] == eligible_modules(mods.subrange(0, n), p)[k],
    decreases mods.len() - n,
{
    if n < mods.len() {
        lemma_eligible_push(mods, n, p);
        lemma_eligible_rest(mods, n + 1, p, k);
    } else {
        assert(mods.subrange(0, n) =~= mods);
    }
}

pub open spec fn banner(kind: Seq<char>, name: Seq<char>) -> Seq<char> {
    "--- "@ + kind + ": "@ + name + " ---"@
}

pub fn banner_text(kind: &str, name: &str) -> (r: String)
    ensures
        r@ == banner(kind@, name@),
{
    let mut b = copy_str("--- ");
    b.append(kind);
    b.append(": ");
    b.append(name);
    b.append(" ---");
    b
}

/// Emits a detected module under its banner, applies its effects to the
/// runtime variables, and only then marks it active.
pub fn activate_module(em: &Emitter, out: &mut String, ctx: &ContextEnv, rt: &mut VarMap, active: &mut ActiveSet, kind: &str, key: &str, name: &str, detect: &VarMap, emit: &EmitBlock, h: &HostView) -> (r: Result<(), Error>)
    ensures
        r is Ok <==> (resolve_block(module_tokens(*ctx, old(rt)@, detect@), *emit) is Some
            && effects_of(*ctx, old(rt).pairs(), detect@, *emit, *h) is Some),
        r is Ok ==> final(out)@ == old(out)@ + comment_text(banner(kind@, name@)) + block_text(
            em.shell,
            *emit,
            resolve_block(module_tokens(*ctx, old(rt)@, detect@), *emit)->Some_0,
        ) + seq!['\n'],
        r is Ok ==> final(rt).pairs() == effects_of(*ctx, old(rt).pairs(), detect@, *emit, *h)->Some_0,
        r is Ok ==> final(active)@ == old(active)@.insert(key@),
        r is Err ==> final(active)@ == old(active)@,
{
    let b = banner_text(kind, name);
    let ghost o0 = out@;
    em.comment(out, b.as_str());
    let ghost o1 = out@;
    emit_module_into(em, out, ctx, rt, detect, emit)?;
    let ghost o2 = out@;
    apply_emit_effects_to_runtime(ctx, rt, detect, emit, h)?;
    active.insert(key);
    em.blank(out);
    assert(out@ =~= o2 + seq!['\n']);
    Ok(())
}

/// A group's text: nothing where no module was emitted.
pub fn finish_group(out: String, emitted_any: bool) -> (r: String)
    ensures
        r@ == if emitted_any {
            out@
        } else {
            Seq::<char>::empty()
        },
{
    if emitted_any {
        out
    } else {
        String::new()
    }
}

/// A rendered template under its banner, ended by a line feed where it has
/// none, then a blank line.
pub open spec fn template_text(name: Seq<char>, text: Seq<char>) -> Seq<char> {
    comment_text(banner("template"@, name)) + text + (if text.len() > 0 && text.last() == '\n' {
        seq![]
    } else {
        seq!['\n']
    }) + seq!['\n']
}

pub fn frame_template(em: &Emitter, out: &mut String, name: &str, text: &str)
    ensures
        final(out)@ == old(out)@ + template_text(name@, text@),
{
    let b = banner_text("template", name);
    em.comment(out, b.as_str());
    out.append(text);
    let cs = crate::text::chars_of(text);
    if cs.len() == 0 || cs[cs.len() - 1] != '\n' {
        crate::text::push_char(out, '\n');
    }
    em.blank(out);
    assert(final(out)@ =~= old(out)@ + template_text(name@, text@));
}

} // verus!
