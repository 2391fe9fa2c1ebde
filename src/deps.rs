//! Module keys, `requires` normalisation and the per-group dependency order.

use vstd::prelude::*;
use crate::error::Error;
use crate::text::{
    ascii_lower, chars_of, copy_str, has_prefix, lemma_lex_asymmetric, lemma_lex_irreflexive,
    lemma_lex_total, lemma_lex_transitive, less_than, lex_lt, lower_str, starts_with,
    string_of, trim, trim_bounds,
};

verus! {

/// One module of a group, as the dependency order sees it.
#[derive(Debug, Clone)]
pub struct DepNode {
    /// `group.name`
    pub key: String,
    pub name: String,
    pub priority: i32,
    /// Normalised keys of the modules this one needs.
    pub requires: Vec<String>,
}

pub struct DepNodeV {
    pub key: Seq<char>,
    pub name: Seq<char>,
    pub priority: int,
    pub requires: Seq<Seq<char>>,
}

pub open spec fn views_of(v: Seq<String>) -> Seq<Seq<char>> {
    v.map_values(|s: String| s@)
}

impl View for DepNode {
    type V = DepNodeV;

    open spec fn view(&self) -> DepNodeV {
        DepNodeV {
            key: self.key@,
            name: self.name@,
            priority: self.priority as int,
            requires: views_of(self.requires@),
        }
    }
}

pub open spec fn node_views(nodes: Seq<DepNode>) -> Seq<DepNodeV> {
    nodes.map_values(|n: DepNode| n@)
}

pub fn copy_strings(v: &Vec<String>) -> (r: Vec<String>)
    ensures
        views_of(r@) == views_of(v@),
{
    let mut r: Vec<String> = Vec::new();
    let mut i: usize = 0;
    while i < v.len()
        invariant
            i <= v@.len(),
            r@.len() == i,
            forall|k: int| 0 <= k < i ==> (#[trigger] r@[k])@ == v@[k]@,
        decreases v@.len() - i,
    {
        let s: String = v[i].clone();
        r.push(s);
        i += 1;
    }
    assert(views_of(r@) =~= views_of(v@));
    r
}

impl DepNode {
    pub fn copy(&self) -> (r: DepNode)
        ensures
            r@ == self@,
    {
        DepNode {
            key: self.key.clone(),
            name: self.name.clone(),
            priority: self.priority,
            requires: copy_strings(&self.requires),
        }
    }
}

pub open spec fn key_of(group: Seq<char>, name: Seq<char>) -> Seq<char> {
    group + "."@ + name
}

/// `group.name`
pub fn module_key(group: &str, name: &str) -> (r: String)
    ensures
        r@ == key_of(group@, name@),
{
    let mut r = copy_str(group);
    r.append(".");
    r.append(name);
    r
}

pub open spec fn single_dot_at(s: Seq<char>, i: int) -> bool {
    &&& 0 <= i < s.len()
    &&& s[i] == '.'
    &&& forall|k: int| 0 <= k < s.len() && k != i ==> s[k] != '.'
}

pub open spec fn strip_modules(s: Seq<char>) -> Seq<char> {
    if starts_with(s, "modules."@) {
        s.subrange("modules."@.len() as int, s.len() as int)
    } else {
        s
    }
}

/// The normal form of a `requires` entry: trimmed, without a leading
/// `modules.`, made of exactly two non-blank parts with the group in lower case.
pub open spec fn normalized_key(raw: Seq<char>) -> Option<Seq<char>> {
    let s = trim(raw);
    let t = strip_modules(s);
    if s.len() == 0 {
        None
    } else if exists|i: int| single_dot_at(t, i) {
        let i = choose|i: int| single_dot_at(t, i);
        let g = ascii_lower(trim(t.subrange(0, i)));
        let n = trim(t.subrange(i + 1, t.len() as int));
        if g.len() == 0 || n.len() == 0 {
            None
        } else {
            Some(g + "."@ + n)
        }
    } else {
        None
    }
}

/// Accepts `apps.uv`, `cloud.dropbox`, and either with a `modules.` prefix.
pub fn normalize_require_key(raw: &str) -> (r: Result<String, Error>)
    ensures
        normalized_key(raw@) matches Some(k) ==> r matches Ok(s) && s@ == k,
        normalized_key(raw@) is None ==> (r matches Err(Error::InvalidRequire { raw: e }) && e@
            == raw@),
{
    let cs0 = chars_of(raw);
    let (lo, hi) = trim_bounds(&cs0);
    let s = string_of(&cs0, lo, hi);
    if lo == hi {
        return Err(Error::InvalidRequire { raw: copy_str(raw) });
    }
    let cs = chars_of(s.as_str());
    let pre = has_prefix(s.as_str(), "modules.");
    proof {
        reveal_strlit("modules.");
    }
    let start: usize = if pre {
        8
    } else {
        0
    };
    let ghost t = strip_modules(s@);
    assert(t == cs@.subrange(start as int, cs@.len() as int));
    let mut dots: usize = 0;
    let mut at: usize = 0;
    let mut i: usize = start;
    while i < cs.len()
        invariant
            start <= i <= cs@.len(),
            t == cs@.subrange(start as int, cs@.len() as int),
            dots <= i - start,
            dots == 0 ==> forall|k: int| start <= k < i ==> cs@[k] != '.',
            dots == 1 ==> start <= at < i && cs@[at as int] == '.' && forall|k: int|
                start <= k < i && k != at ==> cs@[k] != '.',
            dots >= 2 ==> exists|a: int, b: int|
                start <= a < b < i && cs@[a] == '.' && cs@[b] == '.',
        decreases cs@.len() - i,
    {
        if cs[i] == '.' {
            if dots == 0 {
                at = i;
            }
            if dots == 1 {
                assert(start <= at < i && cs@[at as int] == '.' && cs@[i as int] == '.');
            }
            if dots < 2 {
                dots += 1;
            }
        }
        i += 1;
    }
    if dots != 1 {
        proof {
            if dots >= 2 {
                let (a, b) = choose|a: int, b: int|
                    start <= a < b < cs@.len() && cs@[a] == '.' && cs@[b] == '.';
                assert forall|j: int| !single_dot_at(t, j) by {
                    if single_dot_at(t, j) {
                        assert(t[a - start] == '.');
                        assert(t[b - start] == '.');
                    }
                }
            } else {
                assert forall|j: int| !single_dot_at(t, j) by {
                    if single_dot_at(t, j) {
                        assert(t[j] == cs@[j + start]);
                    }
                }
            }
        }
        return Err(Error::InvalidRequire { raw: copy_str(raw) });
    }
    let ghost di = at - start;
    proof {
        assert(single_dot_at(t, di)) by {
            assert forall|k: int| 0 <= k < t.len() && k != di implies t[k] != '.' by {
                assert(t[k] == cs@[k + start]);
            }
        }
        let c = choose|j: int| single_dot_at(t, j);
        if c != di {
            assert(t[c] == '.');
        }
        assert(t.subrange(0, di) == cs@.subrange(start as int, at as int));
        assert(t.subrange(di + 1, t.len() as int) == cs@.subrange(at + 1, cs@.len() as int));
    }
    let gpart = string_of(&cs, start, at);
    let gcs = chars_of(gpart.as_str());
    let (glo, ghi) = trim_bounds(&gcs);
    let gtrim = string_of(&gcs, glo, ghi);
    let g = lower_str(gtrim.as_str());
    let npart = string_of(&cs, at + 1, cs.len());
    let ncs = chars_of(npart.as_str());
    let (nlo, nhi) = trim_bounds(&ncs);
    let n = string_of(&ncs, nlo, nhi);
    if glo == ghi || nlo == nhi {
        return Err(Error::InvalidRequire { raw: copy_str(raw) });
    }
    let mut out = g;
    out.append(".");
    out.append(n.as_str());
    Ok(out)
}

pub open spec fn all_normalized(raw: Seq<String>) -> bool {
    forall|i: int| 0 <= i < raw.len() ==> (#[trigger] normalized_key(raw[i]@)) is Some
}

/// Normalises each entry, or fails on the first that does not normalise.
pub fn normalize_requires_list(raw: &Vec<String>) -> (r: Result<Vec<String>, Error>)
    ensures
        all_normalized(raw@) <==> r is Ok,
        r matches Ok(v) ==> v@.len() == raw@.len() && forall|i: int|
            0 <= i < raw@.len() ==> Some(#[trigger] v@[i]@) == normalized_key(raw@[i]@),
        r matches Err(e) ==> exists|i: int|
            0 <= i < raw@.len() && normalized_key(raw@[i]@) is None && (forall|k: int|
                0 <= k < i ==> (#[trigger] normalized_key(raw@[k]@)) is Some) && (e
                == Error::InvalidRequire { raw: raw@[i] }),
{
    let mut out: Vec<String> = Vec::new();
    let mut i: usize = 0;
    while i < raw.len()
        invariant
            i <= raw@.len(),
            out@.len() == i,
            forall|k: int| 0 <= k < i ==> Some(#[trigger] out@[k]@) == normalized_key(raw@[k]@),
        decreases raw@.len() - i,
    {
        match normalize_require_key(raw[i].as_str()) {
            Ok(k) => out.push(k),
            Err(e) => {
                proof {
                    assert forall|k: int| 0 <= k < i implies (#[trigger] normalized_key(
                        raw@[k]@,
                    )) is Some by {
                        assert(Some(out@[k]@) == normalized_key(raw@[k]@));
                    }
                }
                return Err(Error::InvalidRequire { raw: raw[i].clone() });
            },
        }
        i += 1;
    }
    assert forall|k: int| 0 <= k < raw@.len() implies (#[trigger] normalized_key(raw@[k]@)) is Some by {
        assert(Some(out@[k]@) == normalized_key(raw@[k]@));
    }
    Ok(out)
}

/// The set of module keys activated so far in one run.
pub struct ActiveSet {
    keys: Vec<String>,
}

impl View for ActiveSet {
    type V = Set<Seq<char>>;

    closed spec fn view(&self) -> Set<Seq<char>> {
        Set::new(|k: Seq<char>| exists|i: int| 0 <= i < self.keys@.len() && self.keys@[i]@ == k)
    }
}

impl ActiveSet {
    pub fn new() -> (r: ActiveSet)
        ensures
            r@ == Set::<Seq<char>>::empty(),
    {
        let r = ActiveSet { keys: Vec::new() };
        assert(r@ =~= Set::<Seq<char>>::empty());
        r
    }

    pub fn contains(&self, key: &str) -> (r: bool)
        ensures
            r == self@.contains(key@),
    {
        let mut i: usize = 0;
        while i < self.keys.len()
            invariant
                i <= self.keys@.len(),
                forall|k: int| 0 <= k < i ==> self.keys@[k]@ != key@,
            decreases self.keys@.len() - i,
        {
            if crate::text::str_eq(self.keys[i].as_str(), key) {
                return true;
            }
            i += 1;
        }
        false
    }

    pub fn insert(&mut self, key: &str)
        ensures
            final(self)@ == old(self)@.insert(key@),
    {
        self.keys.push(copy_str(key));
        assert(final(self)@ =~= old(self)@.insert(key@)) by {
            assert(self.keys@[self.keys@.len() - 1]@ == key@);
            assert forall|k: Seq<char>| old(self)@.contains(k) implies self@.contains(k) by {
                let i = choose|i: int| 0 <= i < old(self).keys@.len() && old(self).keys@[i]@ == k;
                assert(self.keys@[i]@ == k);
            }
            assert forall|k: Seq<char>| self@.contains(k) && k != key@ implies old(self)@.contains(k) by {
                let i = choose|i: int| 0 <= i < self.keys@.len() && self.keys@[i]@ == k;
                assert(old(self).keys@[i]@ == k);
            }
        }
    }
}

/// Whether every required key is already active.
pub fn requires_satisfied(active: &ActiveSet, needs: &Vec<String>) -> (r: bool)
    ensures
        r == (forall|i: int| 0 <= i < needs@.len() ==> active@.contains(#[trigger] needs@[i]@)),
{
    let mut i: usize = 0;
    while i < needs.len()
        invariant
            i <= needs@.len(),
            forall|k: int| 0 <= k < i ==> active@.contains(#[trigger] needs@[k]@),
        decreases needs@.len() - i,
    {
        if !active.contains(needs[i].as_str()) {
            return false;
        }
        i += 1;
    }
    true
}

pub open spec fn same_group(d: Seq<char>, group: Seq<char>) -> bool {
    starts_with(d, group + "."@)
}

/// The tie-break among ready nodes: priority, then name, then key, ascending.
pub open spec fn node_before(a: DepNodeV, b: DepNodeV) -> bool {
    a.priority < b.priority || (a.priority == b.priority && (lex_lt(a.name, b.name) || (a.name
        == b.name && lex_lt(a.key, b.key))))
}

pub open spec fn has_key(nodes: Seq<DepNodeV>, k: Seq<char>) -> bool {
    exists|i: int| 0 <= i < nodes.len() && (#[trigger] nodes[i]).key == k
}

pub open spec fn keys_unique(nodes: Seq<DepNodeV>) -> bool {
    forall|i: int, j: int|
        0 <= i < nodes.len() && 0 <= j < nodes.len() && (#[trigger] nodes[i]).key == (
        #[trigger] nodes[j]).key ==> i == j
}

/// `n` requires a key of its own group that no node has.
pub open spec fn unknown_dep(nodes: Seq<DepNodeV>, group: Seq<char>, n: DepNodeV, d: Seq<char>) -> bool {
    &&& nodes.contains(n)
    &&& n.requires.contains(d)
    &&& same_group(d, group)
    &&& !has_key(nodes, d)
}

pub open spec fn has_unknown_dep(nodes: Seq<DepNodeV>, group: Seq<char>) -> bool {
    exists|n: DepNodeV, d: Seq<char>| unknown_dep(nodes, group, n, d)
}

/// `n` is not placed yet and every same-group key it requires is.
pub open spec fn is_ready(nodes: Seq<DepNodeV>, group: Seq<char>, out: Seq<DepNodeV>, n: DepNodeV) -> bool {
    &&& nodes.contains(n)
    &&& !has_key(out, n.key)
    &&& forall|d: Seq<char>|
        #![trigger n.requires.contains(d)]
        n.requires.contains(d) && same_group(d, group) ==> has_key(out, d)
}

/// `n` is the ready node that the tie-break puts first.
pub open spec fn is_next(nodes: Seq<DepNodeV>, group: Seq<char>, out: Seq<DepNodeV>, n: DepNodeV) -> bool {
    &&& is_ready(nodes, group, out, n)
    &&& forall|m: DepNodeV| #[trigger] is_ready(nodes, group, out, m) && m != n ==> node_before(n, m)
}

/// Kahn's algorithm: place the first ready node, as long as there is one.
pub open spec fn kahn(nodes: Seq<DepNodeV>, group: Seq<char>, out: Seq<DepNodeV>, fuel: nat) -> Seq<DepNodeV>
    decreases fuel,
{
    if fuel == 0 {
        out
    } else if exists|n: DepNodeV| is_next(nodes, group, out, n) {
        kahn(nodes, group, out.push(choose|n: DepNodeV| is_next(nodes, group, out, n)), (fuel - 1) as nat)
    } else {
        out
    }
}

/// The nodes in dependency order, as far as it reaches: all of them unless
/// the same-group edges hold a cycle.
pub open spec fn topo_order(nodes: Seq<DepNodeV>, group: Seq<char>) -> Seq<DepNodeV> {
    kahn(nodes, group, seq![], nodes.len())
}

pub open spec fn strictly_ascending(s: Seq<Seq<char>>) -> bool {
    forall|i: int, j: int| 0 <= i < j < s.len() ==> lex_lt(#[trigger] s[i], #[trigger] s[j])
}

pub proof fn lemma_before_asymmetric(a: DepNodeV, b: DepNodeV)
    ensures
        !(node_before(a, b) && node_before(b, a)),
{
    lemma_lex_asymmetric(a.name, b.name);
    lemma_lex_asymmetric(a.key, b.key);
    lemma_lex_irreflexive(a.name);
    lemma_lex_irreflexive(a.key);
}

pub proof fn lemma_before_transitive(a: DepNodeV, b: DepNodeV, c: DepNodeV)
    requires
        node_before(a, b),
        node_before(b, c),
    ensures
        node_before(a, c),
{
    if lex_lt(a.name, b.name) && lex_lt(b.name, c.name) {
        lemma_lex_transitive(a.name, b.name, c.name);
    }
    if lex_lt(a.key, b.key) && lex_lt(b.key, c.key) {
        lemma_lex_transitive(a.key, b.key, c.key);
    }
}

pub proof fn lemma_before_total(a: DepNodeV, b: DepNodeV)
    ensures
        a.key != b.key ==> node_before(a, b) || node_before(b, a),
{
    lemma_lex_total(a.name, b.name);
    lemma_lex_total(a.key, b.key);
}

pub proof fn lemma_next_unique(nodes: Seq<DepNodeV>, group: Seq<char>, out: Seq<DepNodeV>, n: DepNodeV, m: DepNodeV)
    requires
        is_next(nodes, group, out, n),
        is_next(nodes, group, out, m),
    ensures
        n == m,
{
    if n != m {
        assert(is_ready(nodes, group, out, m));
        assert(is_ready(nodes, group, out, n));
        lemma_before_asymmetric(n, m);
    }
}

fn find_key(nodes: &Vec<DepNode>, k: &String) -> (r: bool)
    ensures
        r == has_key(node_views(nodes@), k@),
{
    let ghost v = node_views(nodes@);
    let mut i: usize = 0;
    while i < nodes.len()
        invariant
            i <= nodes@.len(),
            v == node_views(nodes@),
            forall|j: int| 0 <= j < i ==> v[j].key != k@,
        decreases nodes@.len() - i,
    {
        if nodes[i].key == *k {
            assert(v[i as int].key == k@);
            return true;
        }
        i += 1;
    }
    false
}

pub open spec fn done_key(v: Seq<DepNodeV>, done: Seq<bool>, k: Seq<char>) -> bool {
    exists|j: int| 0 <= j < v.len() && done[j] && (#[trigger] v[j]).key == k
}

fn key_done(nodes: &Vec<DepNode>, done: &Vec<bool>, k: &String) -> (r: bool)
    requires
        done@.len() == nodes@.len(),
    ensures
        r == done_key(node_views(nodes@), done@, k@),
{
    let ghost v = node_views(nodes@);
    let mut i: usize = 0;
    while i < nodes.len()
        invariant
            i <= nodes@.len(),
            done@.len() == nodes@.len(),
            v == node_views(nodes@),
            forall|j: int| 0 <= j < i ==> !(done@[j] && v[j].key == k@),
        decreases nodes@.len() - i,
    {
        if done[i] && nodes[i].key == *k {
            assert(v[i as int].key == k@);
            return true;
        }
        i += 1;
    }
    false
}

/// Whether every same-group key that node `j` requires is placed.
fn deps_met(nodes: &Vec<DepNode>, done: &Vec<bool>, j: usize, prefix: &String, group: Ghost<Seq<char>>) -> (r: bool)
    requires
        done@.len() == nodes@.len(),
        j < nodes@.len(),
        prefix@ == group@ + "."@,
    ensures
        r == (forall|d: Seq<char>|
            #![trigger node_views(nodes@)[j as int].requires.contains(d)]
            node_views(nodes@)[j as int].requires.contains(d) && same_group(d, group@) ==> done_key(
                node_views(nodes@),
                done@,
                d,
            )),
{
    let ghost v = node_views(nodes@);
    let reqs = &nodes[j].requires;
    assert(v[j as int].requires == views_of(reqs@));
    let mut i: usize = 0;
    while i < reqs.len()
        invariant
            i <= reqs@.len(),
            done@.len() == nodes@.len(),
            v == node_views(nodes@),
            *reqs == nodes@[j as int].requires,
            v[j as int].requires == views_of(reqs@),
            prefix@ == group@ + "."@,
            forall|k: int|
                0 <= k < i && same_group(#[trigger] reqs@[k]@, group@) ==> done_key(v, done@, reqs@[k]@),
        decreases reqs@.len() - i,
    {
        if has_prefix(reqs[i].as_str(), prefix.as_str()) {
            if !key_done(nodes, done, &reqs[i]) {
                assert(v[j as int].requires[i as int] == reqs@[i as int]@);
                assert(v[j as int].requires.contains(reqs@[i as int]@));
                assert(same_group(reqs@[i as int]@, group@));
                return false;
            }
        }
        i += 1;
    }
    proof {
        assert forall|d: Seq<char>|
            v[j as int].requires.contains(d) && same_group(d, group@) implies done_key(v, done@, d) by {
            let k = choose|k: int| 0 <= k < v[j as int].requires.len() && v[j as int].requires[k] == d;
            assert(reqs@[k]@ == d);
        }
    }
    true
}

fn before_exec(a: &DepNode, b: &DepNode) -> (r: bool)
    ensures
        r == node_before(a@, b@),
{
    if a.priority < b.priority {
        true
    } else if a.priority > b.priority {
        false
    } else if less_than(a.name.as_str(), b.name.as_str()) {
        true
    } else if a.name == b.name {
        less_than(a.key.as_str(), b.key.as_str())
    } else {
        false
    }
}

fn insert_sorted(v: &mut Vec<String>, k: &String)
    requires
        strictly_ascending(views_of(old(v)@)),
        !views_of(old(v)@).contains(k@),
    ensures
        strictly_ascending(views_of(final(v)@)),
        forall|x: Seq<char>|
            views_of(final(v)@).contains(x) <==> (views_of(old(v)@).contains(x) || x == k@),
{
    let ghost w = views_of(v@);
    let mut p: usize = 0;
    while p < v.len() && !less_than(k.as_str(), v[p].as_str())
        invariant
            p <= v@.len(),
            w == views_of(v@),
            forall|i: int| 0 <= i < p ==> lex_lt(#[trigger] w[i], k@),
            strictly_ascending(w),
            !w.contains(k@),
        decreases v@.len() - p,
    {
        proof {
            lemma_lex_total(w[p as int], k@);
            assert(w[p as int] != k@);
        }
        p += 1;
    }
    v.insert(p, k.clone());
    proof {
        let w2 = views_of(v@);
        assert(w2 =~= w.insert(p as int, k@));
        if p < w.len() {
            assert(lex_lt(k@, w[p as int]));
        }
        assert forall|i: int, j: int| 0 <= i < j < w2.len() implies lex_lt(
            #[trigger] w2[i],
            #[trigger] w2[j],
        ) by {
            if j < p {
            } else if j == p {
            } else if i < p {
                assert(lex_lt(w[i], k@));
                assert(lex_lt(k@, w[p as int]));
                lemma_lex_transitive(w[i], k@, w[p as int]);
                if j - 1 > p {
                    lemma_lex_transitive(w[i], w[p as int], w[j - 1]);
                }
            } else if i == p {
                if j - 1 > p {
                    lemma_lex_transitive(k@, w[p as int], w[j - 1]);
                }
            } else {
            }
        }
        assert forall|x: Seq<char>| w2.contains(x) <==> (w.contains(x) || x == k@) by {
            if w2.contains(x) {
                let i = choose|i: int| 0 <= i < w2.len() && w2[i] == x;
                if i < p {
                    assert(w[i] == x);
                } else if i > p {
                    assert(w[i - 1] == x);
                }
            }
            if w.contains(x) {
                let i = choose|i: int| 0 <= i < w.len() && w[i] == x;
                if i < p {
                    assert(w2[i] == x);
                } else {
                    assert(w2[i + 1] == x);
                }
            }
            if x == k@ {
                assert(w2[p as int] == x);
            }
        }
    }
}

/// Orders one group's nodes by their same-group `requires`: Kahn's algorithm
/// whose ready set yields the least node by priority, then name, then key.
/// Requirements on other groups do not order anything here.
pub fn topo_sort_group(nodes: Vec<DepNode>, group: &str) -> (r: Result<Vec<DepNode>, Error>)
    requires
        keys_unique(node_views(nodes@)),
    ensures
        has_unknown_dep(node_views(nodes@), group@) <==> (r matches Err(
            Error::UnknownDependency { .. },
        )),
        r is Err && r->Err_0 is UnknownDependency ==> exists|n: DepNodeV|
            unknown_dep(node_views(nodes@), group@, n, r->Err_0->dep@) && n.key
                == r->Err_0->module@,
        !has_unknown_dep(node_views(nodes@), group@) ==> {
            let order = topo_order(node_views(nodes@), group@);
            &&& (r is Ok <==> order.len() == nodes@.len())
            &&& (r matches Ok(v) ==> node_views(v@) == order)
            &&& (r is Err ==> (r matches Err(Error::DependencyCycle { group: g, nodes: stuck })
                && g@ == group@ && strictly_ascending(views_of(stuck@)) && forall|k: Seq<char>|
                views_of(stuck@).contains(k) <==> (has_key(node_views(nodes@), k) && !has_key(
                order,
                k,
            ))))
        },
{
    let ghost v = node_views(nodes@);
    let ghost g = group@;
    let n = nodes.len();
    let mut prefix = copy_str(group);
    prefix.append(".");
    // every same-group requirement names a node of the group
    let mut i: usize = 0;
    while i < n
        invariant
            n == nodes@.len(),
            v == node_views(nodes@),
            g == group@,
            prefix@ == g + "."@,
            i <= n,
            forall|k: int, d: Seq<char>|
                0 <= k < i ==> !(#[trigger] unknown_dep(v, g, v[k], d)),
        decreases n - i,
    {
        let reqs = &nodes[i].requires;
        let mut j: usize = 0;
        while j < reqs.len()
            invariant
                n == nodes@.len(),
                v == node_views(nodes@),
                g == group@,
                prefix@ == g + "."@,
                i < n,
                *reqs == nodes@[i as int].requires,
                v[i as int].requires == views_of(reqs@),
                j <= reqs@.len(),
                forall|k: int|
                    0 <= k < j && same_group(#[trigger] reqs@[k]@, g) ==> has_key(v, reqs@[k]@),
            decreases reqs@.len() - j,
        {
            if has_prefix(reqs[j].as_str(), prefix.as_str()) {
                if !find_key(&nodes, &reqs[j]) {
                    proof {
                        assert(v[i as int].requires[j as int] == reqs@[j as int]@);
                        assert(v.contains(v[i as int]));
                        assert(unknown_dep(v, g, v[i as int], reqs@[j as int]@));
                        assert(has_unknown_dep(v, g));
                    }
                    let module = nodes[i].key.clone();
                    let dep = reqs[j].clone();
                    assert(module@ == v[i as int].key);
                    assert(dep@ == reqs@[j as int]@);
                    assert(unknown_dep(node_views(nodes@), group@, v[i as int], dep@));
                    assert(has_unknown_dep(node_views(nodes@), group@));
                    assert(exists|x: DepNodeV|
                        unknown_dep(node_views(nodes@), group@, x, dep@) && x.key == module@);
                    let e = Error::UnknownDependency { module, dep };
                    assert(e->dep@ == reqs@[j as int]@);
                    assert(e->module@ == v[i as int].key);
                    return Err(e);
                }
            }
            j += 1;
        }
        proof {
            assert forall|k: int, d: Seq<char>| 0 <= k < i + 1 implies !(#[trigger] unknown_dep(
                v,
                g,
                v[k],
                d,
            )) by {
                if k == i && unknown_dep(v, g, v[k], d) {
                    let x = choose|x: int| 0 <= x < v[k].requires.len() && v[k].requires[x] == d;
                    assert(reqs@[x]@ == d);
                }
            }
        }
        i += 1;
    }
    proof {
        assert forall|m: DepNodeV, d: Seq<char>| !unknown_dep(v, g, m, d) by {
            if unknown_dep(v, g, m, d) {
                let k = choose|k: int| 0 <= k < v.len() && v[k] == m;
                assert(!unknown_dep(v, g, v[k], d));
            }
        }
    }
    let mut done: Vec<bool> = Vec::new();
    let mut c: usize = 0;
    while c < n
        invariant
            c <= n,
            done@.len() == c,
            forall|k: int| 0 <= k < c ==> !done@[k],
        decreases n - c,
    {
        done.push(false);
        c += 1;
    }
    let mut out: Vec<DepNode> = Vec::new();
    let mut stuck = false;
    assert(node_views(out@) =~= seq![]);
    proof {
        assert forall|k: Seq<char>| has_key(seq![], k) <==> done_key(v, done@, k) by {
            if done_key(v, done@, k) {
                let j = choose|j: int| 0 <= j < v.len() && done@[j] && v[j].key == k;
            }
        }
    }
    while out.len() < n && !stuck
        invariant
            n == nodes@.len(),
            v == node_views(nodes@),
            keys_unique(v),
            prefix@ == g + "."@,
            done@.len() == n,
            out@.len() <= n,
            forall|k: Seq<char>| has_key(node_views(out@), k) <==> done_key(v, done@, k),
            stuck ==> topo_order(v, g) == node_views(out@),
            !stuck ==> topo_order(v, g) == kahn(v, g, node_views(out@), (n - out@.len()) as nat),
        decreases n - out@.len() + (if stuck { 0int } else { 1int }),
    {
        let ghost outv = node_views(out@);
        let mut best: usize = n;
        let mut j: usize = 0;
        while j < n
            invariant
                n == nodes@.len(),
                v == node_views(nodes@),
                keys_unique(v),
                prefix@ == g + "."@,
                done@.len() == n,
                outv == node_views(out@),
                forall|k: Seq<char>| has_key(outv, k) <==> done_key(v, done@, k),
                j <= n,
                best == n || (best < j && is_ready(v, g, outv, v[best as int])),
                forall|k: int|
                    0 <= k < j && is_ready(v, g, outv, #[trigger] v[k]) ==> best < n && (k == best
                        || node_before(v[best as int], v[k])),
            decreases n - j,
        {
            let ready = !done[j] && deps_met(&nodes, &done, j, &prefix, Ghost(g));
            proof {
                assert(v.contains(v[j as int]));
                if done@[j as int] {
                    assert(done_key(v, done@, v[j as int].key));
                }
                if done_key(v, done@, v[j as int].key) {
                    let w = choose|w: int| 0 <= w < v.len() && done@[w] && v[w].key == v[j as int].key;
                    assert(w == j);
                }
                assert forall|d: Seq<char>| has_key(outv, d) == done_key(v, done@, d) by {}
                assert(ready == is_ready(v, g, outv, v[j as int]));
            }
            if ready {
                if best == n || before_exec(&nodes[j], &nodes[best]) {
                    proof {
                        assert forall|k: int|
                            0 <= k < j && is_ready(v, g, outv, #[trigger] v[k]) implies node_before(
                            v[j as int],
                            v[k],
                        ) by {
                            if k == best {
                            } else {
                                lemma_before_transitive(v[j as int], v[best as int], v[k]);
                            }
                        }
                    }
                    best = j;
                } else {
                    proof {
                        assert(v[j as int].key != v[best as int].key);
                        lemma_before_total(v[j as int], v[best as int]);
                    }
                }
            }
            j += 1;
        }
        if best == n {
            proof {
                assert forall|m: DepNodeV| !is_next(v, g, outv, m) by {
                    if is_next(v, g, outv, m) {
                        let k = choose|k: int| 0 <= k < v.len() && v[k] == m;
                        assert(is_ready(v, g, outv, v[k]));
                    }
                }
            }
            stuck = true;
        } else {
            proof {
                let b = v[best as int];
                assert forall|m: DepNodeV| #[trigger] is_ready(v, g, outv, m) && m != b implies node_before(b, m) by {
                    let k = choose|k: int| 0 <= k < v.len() && v[k] == m;
                    assert(is_ready(v, g, outv, v[k]));
                }
                assert(is_next(v, g, outv, b));
                let ch = choose|x: DepNodeV| is_next(v, g, outv, x);
                lemma_next_unique(v, g, outv, ch, b);
            }
            let ghost old_done = done@;
            done.set(best, true);
            out.push(nodes[best].copy());
            proof {
                let b = v[best as int];
                let outv2 = node_views(out@);
                assert(outv2 =~= outv.push(b));
                assert forall|k: Seq<char>| has_key(outv2, k) <==> done_key(v, done@, k) by {
                    if has_key(outv2, k) {
                        let x = choose|x: int| 0 <= x < outv2.len() && outv2[x].key == k;
                        if x < outv.len() {
                            assert(outv[x].key == k);
                            assert(has_key(outv, k));
                            let w = choose|w: int| 0 <= w < v.len() && old_done[w] && v[w].key == k;
                            assert(done@[w]);
                        } else {
                            assert(done@[best as int]);
                        }
                    }
                    if done_key(v, done@, k) {
                        let w = choose|w: int| 0 <= w < v.len() && done@[w] && v[w].key == k;
                        if w == best {
                            assert(outv2[outv.len() as int].key == k);
                        } else {
                            assert(old_done[w]);
                            assert(done_key(v, old_done, k));
                            let x = choose|x: int| 0 <= x < outv.len() && outv[x].key == k;
                            assert(outv2[x].key == k);
                        }
                    }
                }
            }
        }
    }
    let ghost order = node_views(out@);
    assert(topo_order(v, g) == order);
    if out.len() == n {
        return Ok(out);
    }
    let mut left: Vec<String> = Vec::new();
    let mut i: usize = 0;
    while i < n
        invariant
            n == nodes@.len(),
            v == node_views(nodes@),
            keys_unique(v),
            done@.len() == n,
            order == topo_order(v, g),
            forall|k: Seq<char>| has_key(order, k) <==> done_key(v, done@, k),
            i <= n,
            strictly_ascending(views_of(left@)),
            forall|k: Seq<char>|
                views_of(left@).contains(k) <==> exists|w: int|
                    0 <= w < i && !done@[w] && (#[trigger] v[w]).key == k,
        decreases n - i,
    {
        if !done[i] {
            proof {
                if views_of(left@).contains(v[i as int].key) {
                    let w = choose|w: int| 0 <= w < i && !done@[w] && (#[trigger] v[w]).key == v[i as int].key;
                }
            }
            insert_sorted(&mut left, &nodes[i].key);
        }
        proof {
            assert forall|k: Seq<char>|
                views_of(left@).contains(k) <== exists|w: int|
                    0 <= w < i + 1 && !done@[w] && (#[trigger] v[w]).key == k by {
                if exists|w: int| 0 <= w < i + 1 && !done@[w] && (#[trigger] v[w]).key == k {
                    let w = choose|w: int| 0 <= w < i + 1 && !done@[w] && (#[trigger] v[w]).key == k;
                    if w < i {
                        assert(exists|w: int| 0 <= w < i && !done@[w] && (#[trigger] v[w]).key == k);
                    }
                }
            }
        }
        i += 1;
    }
    proof {
        assert forall|k: Seq<char>|
            views_of(left@).contains(k) <==> (has_key(v, k) && !has_key(order, k)) by {
            if views_of(left@).contains(k) {
                let w = choose|w: int| 0 <= w < n && !done@[w] && (#[trigger] v[w]).key == k;
                if done_key(v, done@, k) {
                    let w2 = choose|w2: int| 0 <= w2 < v.len() && done@[w2] && v[w2].key == k;
                }
            }
            if has_key(v, k) && !has_key(order, k) {
                let w = choose|w: int| 0 <= w < v.len() && (#[trigger] v[w]).key == k;
                if done@[w] {
                    assert(done_key(v, done@, k));
                }
            }
        }
    }
    Err(Error::DependencyCycle { group: copy_str(group), nodes: left })
}

/// Node `i` of `s` comes after every same-group node it requires.
pub open spec fn placed_after_deps(s: Seq<DepNodeV>, group: Seq<char>, i: int) -> bool {
    forall|d: Seq<char>|
        #![trigger s[i].requires.contains(d)]
        s[i].requires.contains(d) && same_group(d, group) ==> has_key(s.subrange(0, i), d)
}

pub open spec fn ordered_by_deps(s: Seq<DepNodeV>, group: Seq<char>) -> bool {
    forall|i: int| 0 <= i < s.len() ==> #[trigger] placed_after_deps(s, group, i)
}

proof fn lemma_kahn_sound(nodes: Seq<DepNodeV>, group: Seq<char>, out: Seq<DepNodeV>, fuel: nat)
    requires
        ordered_by_deps(out, group),
        forall|i: int| 0 <= i < out.len() ==> nodes.contains(#[trigger] out[i]),
    ensures
        ordered_by_deps(kahn(nodes, group, out, fuel), group),
        forall|i: int|
            0 <= i < kahn(nodes, group, out, fuel).len() ==> nodes.contains(
                #[trigger] kahn(nodes, group, out, fuel)[i],
            ),
    decreases fuel,
{
    if fuel > 0 && exists|n: DepNodeV| is_next(nodes, group, out, n) {
        let n = choose|n: DepNodeV| is_next(nodes, group, out, n);
        let o2 = out.push(n);
        assert forall|i: int| 0 <= i < o2.len() implies #[trigger] placed_after_deps(o2, group, i) by {
            assert(o2.subrange(0, i) == out.subrange(0, i) || i == out.len());
            if i < out.len() {
                assert(o2.subrange(0, i) =~= out.subrange(0, i));
                assert(placed_after_deps(out, group, i));
            } else {
                assert(o2.subrange(0, i) =~= out);
            }
        }
        lemma_kahn_sound(nodes, group, o2, (fuel - 1) as nat);
    }
}

proof fn lemma_kahn_same_nodes(a: Seq<DepNodeV>, b: Seq<DepNodeV>, group: Seq<char>, out: Seq<DepNodeV>, fuel: nat)
    requires
        forall|n: DepNodeV| a.contains(n) <==> b.contains(n),
    ensures
        kahn(a, group, out, fuel) == kahn(b, group, out, fuel),
    decreases fuel,
{
    if fuel > 0 {
        assert forall|n: DepNodeV| is_ready(a, group, out, n) <==> is_ready(b, group, out, n) by {}
        assert forall|n: DepNodeV| is_next(a, group, out, n) <==> is_next(b, group, out, n) by {
            if is_next(a, group, out, n) {
                assert forall|m: DepNodeV| #[trigger] is_ready(b, group, out, m) && m != n implies node_before(n, m) by {
                    assert(is_ready(a, group, out, m));
                }
            }
            if is_next(b, group, out, n) {
                assert forall|m: DepNodeV| #[trigger] is_ready(a, group, out, m) && m != n implies node_before(n, m) by {
                    assert(is_ready(b, group, out, m));
                }
            }
        }
        if exists|n: DepNodeV| is_next(a, group, out, n) {
            let x = choose|n: DepNodeV| is_next(a, group, out, n);
            let y = choose|n: DepNodeV| is_next(b, group, out, n);
            lemma_next_unique(a, group, out, x, y);
            lemma_kahn_same_nodes(a, b, group, out.push(x), (fuel - 1) as nat);
        }
    }
}

/// The dependency order places each node after every same-group node it
/// requires, holds only given nodes, and is the same for any arrangement of
/// the same nodes.
pub proof fn lemma_topo_order_sound(nodes: Seq<DepNodeV>, other: Seq<DepNodeV>, group: Seq<char>)
    requires
        other.len() == nodes.len(),
        forall|n: DepNodeV| nodes.contains(n) <==> other.contains(n),
    ensures
        ordered_by_deps(topo_order(nodes, group), group),
        forall|i: int|
            0 <= i < topo_order(nodes, group).len() ==> nodes.contains(
                #[trigger] topo_order(nodes, group)[i],
            ),
        topo_order(nodes, group) == topo_order(other, group),
{
    lemma_kahn_sound(nodes, group, seq![], nodes.len());
    lemma_kahn_same_nodes(nodes, other, group, seq![], nodes.len());
}

/// A numbering of keys under which every same-group requirement names a
/// node with a smaller number: the requires graph has no cycle.
pub open spec fn ranked(nodes: Seq<DepNodeV>, group: Seq<char>, rank: spec_fn(Seq<char>) -> int) -> bool {
    forall|i: int, d: Seq<char>|
        0 <= i < nodes.len() && #[trigger] nodes[i].requires.contains(d) && same_group(d, group)
            ==> has_key(nodes, d) && rank(d) < rank(nodes[i].key)
}

pub open spec fn acyclic(nodes: Seq<DepNodeV>, group: Seq<char>) -> bool {
    exists|rank: spec_fn(Seq<char>) -> int| ranked(nodes, group, rank)
}

pub open spec fn out_keys_distinct(out: Seq<DepNodeV>) -> bool {
    forall|i: int, j: int| 0 <= i < out.len() && 0 <= j < out.len() && i != j ==> (#[trigger] out[i]).key != (#[trigger] out[j]).key
}

proof fn lemma_some_unplaced(nodes: Seq<DepNodeV>, out: Seq<DepNodeV>)
    requires
        keys_unique(nodes),
        out_keys_distinct(out),
        out.len() < nodes.len(),
    ensures
        exists|i: int| 0 <= i < nodes.len() && !has_key(out, #[trigger] nodes[i].key),
{
    let kn = nodes.map_values(|n: DepNodeV| n.key);
    let ko = out.map_values(|n: DepNodeV| n.key);
    if forall|i: int| 0 <= i < nodes.len() ==> has_key(out, #[trigger] nodes[i].key) {
        assert(kn.no_duplicates()) by {
            assert forall|i: int, j: int| 0 <= i < kn.len() && 0 <= j < kn.len() && i != j implies kn[i] != kn[j] by {
                assert(kn[i] == nodes[i].key);
                assert(kn[j] == nodes[j].key);
            }
        }
        assert(ko.no_duplicates()) by {
            assert forall|i: int, j: int| 0 <= i < ko.len() && 0 <= j < ko.len() && i != j implies ko[i] != ko[j] by {
                assert(ko[i] == out[i].key);
                assert(ko[j] == out[j].key);
            }
        }
        kn.unique_seq_to_set();
        ko.unique_seq_to_set();
        assert(kn.to_set().subset_of(ko.to_set())) by {
            assert forall|k: Seq<char>| kn.to_set().contains(k) implies ko.to_set().contains(k) by {
                let i = choose|i: int| 0 <= i < kn.len() && kn[i] == k;
                assert(has_key(out, nodes[i].key));
                let j = choose|j: int| 0 <= j < out.len() && (#[trigger] out[j]).key == nodes[i].key;
                assert(ko[j] == k);
            }
        }
        vstd::set_lib::lemma_len_subset(kn.to_set(), ko.to_set());
    }
}

proof fn lemma_min_unplaced(nodes: Seq<DepNodeV>, out: Seq<DepNodeV>, rank: spec_fn(Seq<char>) -> int, k: int)
    requires
        0 <= k <= nodes.len(),
        exists|i: int| 0 <= i < k && !has_key(out, #[trigger] nodes[i].key),
    ensures
        exists|j: int| 0 <= j < k && !has_key(out, nodes[j].key) && forall|i: int| 0 <= i < k && !has_key(out, #[trigger] nodes[i].key) ==> rank(nodes[j].key) <= rank(nodes[i].key),
    decreases k,
{
    if exists|i: int| 0 <= i < k - 1 && !has_key(out, #[trigger] nodes[i].key) {
        lemma_min_unplaced(nodes, out, rank, k - 1);
        let j0 = choose|j: int| 0 <= j < k - 1 && !has_key(out, nodes[j].key) && forall|i: int| 0 <= i < k - 1 && !has_key(out, #[trigger] nodes[i].key) ==> rank(nodes[j].key) <= rank(nodes[i].key);
        if !has_key(out, nodes[k - 1].key) && rank(nodes[k - 1].key) < rank(nodes[j0].key) {
            assert forall|i: int| 0 <= i < k && !has_key(out, #[trigger] nodes[i].key) implies rank(nodes[k - 1].key) <= rank(nodes[i].key) by {
                if i < k - 1 {
                }
            }
        } else {
            assert forall|i: int| 0 <= i < k && !has_key(out, #[trigger] nodes[i].key) implies rank(nodes[j0].key) <= rank(nodes[i].key) by {
                if i < k - 1 {
                }
            }
        }
    } else {
        assert forall|i: int| 0 <= i < k && !has_key(out, #[trigger] nodes[i].key) implies rank(nodes[k - 1].key) <= rank(nodes[i].key) by {
            if i < k - 1 {
            }
        }
    }
}

pub open spec fn is_min_by(nodes: Seq<DepNodeV>, p: spec_fn(int) -> bool, k: int, j: int) -> bool {
    0 <= j < k && p(j) && forall|i: int| 0 <= i < k && #[trigger] p(i) && i != j ==> node_before(nodes[j], nodes[i])
}

proof fn lemma_min_by(nodes: Seq<DepNodeV>, p: spec_fn(int) -> bool, k: int)
    requires
        keys_unique(nodes),
        0 <= k <= nodes.len(),
        exists|i: int| 0 <= i < k && #[trigger] p(i),
    ensures
        exists|j: int| #[trigger] is_min_by(nodes, p, k, j),
    decreases k,
{
    if exists|i: int| 0 <= i < k - 1 && #[trigger] p(i) {
        lemma_min_by(nodes, p, k - 1);
        let j0 = choose|j: int| #[trigger] is_min_by(nodes, p, k - 1, j);
        let last = nodes[k - 1];
        if p(k - 1) {
            lemma_before_total(nodes[j0], last);
            assert(nodes[j0].key != last.key);
            if node_before(last, nodes[j0]) {
                assert forall|i: int| 0 <= i < k && #[trigger] p(i) && i != k - 1 implies node_before(last, nodes[i]) by {
                    if i != j0 {
                        lemma_before_transitive(last, nodes[j0], nodes[i]);
                    }
                }
                assert(is_min_by(nodes, p, k, k - 1));
            } else {
                assert forall|i: int| 0 <= i < k && #[trigger] p(i) && i != j0 implies node_before(nodes[j0], nodes[i]) by {
                    if i < k - 1 {
                    }
                }
                assert(is_min_by(nodes, p, k, j0));
            }
        } else {
            assert forall|i: int| 0 <= i < k && #[trigger] p(i) && i != j0 implies node_before(nodes[j0], nodes[i]) by {
                if i < k - 1 {
                }
            }
            assert(is_min_by(nodes, p, k, j0));
        }
    } else {
        assert forall|i: int| 0 <= i < k && #[trigger] p(i) && i != k - 1 implies node_before(nodes[k - 1], nodes[i]) by {
        }
        let w = choose|i: int| 0 <= i < k && #[trigger] p(i);
        assert(w == k - 1);
        assert(is_min_by(nodes, p, k, k - 1));
    }
}

proof fn lemma_exists_next(nodes: Seq<DepNodeV>, group: Seq<char>, out: Seq<DepNodeV>, j: int)
    requires
        keys_unique(nodes),
        0 <= j < nodes.len(),
        is_ready(nodes, group, out, nodes[j]),
    ensures
        exists|x: DepNodeV| is_next(nodes, group, out, x),
{
    let p = |i: int| is_ready(nodes, group, out, nodes[i]);
    assert(p(j));
    lemma_min_by(nodes, p, nodes.len() as int);
    let b = choose|b: int| #[trigger] is_min_by(nodes, p, nodes.len() as int, b);
    assert forall|m: DepNodeV| #[trigger] is_ready(nodes, group, out, m) && m != nodes[b] implies node_before(nodes[b], m) by {
        let i = choose|i: int| 0 <= i < nodes.len() && nodes[i] == m;
        assert(p(i));
    }
    assert(is_next(nodes, group, out, nodes[b]));
}

proof fn lemma_ready_exists(nodes: Seq<DepNodeV>, group: Seq<char>, rank: spec_fn(Seq<char>) -> int, out: Seq<DepNodeV>)
    requires
        keys_unique(nodes),
        ranked(nodes, group, rank),
        out_keys_distinct(out),
        out.len() < nodes.len(),
    ensures
        exists|j: int| 0 <= j < nodes.len() && is_ready(nodes, group, out, nodes[j]),
{
    lemma_some_unplaced(nodes, out);
    lemma_min_unplaced(nodes, out, rank, nodes.len() as int);
    let j = choose|j: int| 0 <= j < nodes.len() && !has_key(out, nodes[j].key) && forall|i: int| 0 <= i < nodes.len() && !has_key(out, #[trigger] nodes[i].key) ==> rank(nodes[j].key) <= rank(nodes[i].key);
    let n = nodes[j];
    assert(nodes.contains(n));
    assert forall|d: Seq<char>| n.requires.contains(d) && same_group(d, group) implies has_key(out, d) by {
        assert(nodes[j].requires.contains(d));
        let m = choose|m: int| 0 <= m < nodes.len() && (#[trigger] nodes[m]).key == d;
        if !has_key(out, nodes[m].key) {
            assert(rank(nodes[j].key) <= rank(nodes[m].key));
        }
    }
    assert(is_ready(nodes, group, out, nodes[j]));
}

proof fn lemma_push_distinct(out: Seq<DepNodeV>, x: DepNodeV)
    requires
        out_keys_distinct(out),
        !has_key(out, x.key),
    ensures
        out_keys_distinct(out.push(x)),
{
    let o2 = out.push(x);
    assert forall|i: int, k: int| 0 <= i < o2.len() && 0 <= k < o2.len() && i != k implies (#[trigger] o2[i]).key != (#[trigger] o2[k]).key by {
        if i == out.len() {
            assert(out[k] == o2[k]);
        } else if k == out.len() {
            assert(out[i] == o2[i]);
        } else {
            assert(out[i] == o2[i]);
            assert(out[k] == o2[k]);
        }
    }
}

proof fn lemma_kahn_complete(nodes: Seq<DepNodeV>, group: Seq<char>, rank: spec_fn(Seq<char>) -> int, out: Seq<DepNodeV>, fuel: nat)
    requires
        keys_unique(nodes),
        ranked(nodes, group, rank),
        out_keys_distinct(out),
        out.len() + fuel == nodes.len(),
    ensures
        kahn(nodes, group, out, fuel).len() == nodes.len(),
    decreases fuel,
{
    if fuel > 0 {
        lemma_ready_exists(nodes, group, rank, out);
        let j = choose|j: int| 0 <= j < nodes.len() && is_ready(nodes, group, out, nodes[j]);
        lemma_exists_next(nodes, group, out, j);
        let x = choose|x: DepNodeV| is_next(nodes, group, out, x);
        lemma_push_distinct(out, x);
        lemma_kahn_complete(nodes, group, rank, out.push(x), (fuel - 1) as nat);
    }
}

/// An acyclic group is placed whole: no requirement names an unknown node,
/// and the dependency order holds every node.
pub proof fn lemma_topo_order_complete(nodes: Seq<DepNodeV>, group: Seq<char>)
    requires
        keys_unique(nodes),
        acyclic(nodes, group),
    ensures
        !has_unknown_dep(nodes, group),
        topo_order(nodes, group).len() == nodes.len(),
{
    let rank = choose|rank: spec_fn(Seq<char>) -> int| ranked(nodes, group, rank);
    assert forall|n: DepNodeV, d: Seq<char>| !unknown_dep(nodes, group, n, d) by {
        if unknown_dep(nodes, group, n, d) {
            let i = choose|i: int| 0 <= i < nodes.len() && nodes[i] == n;
            assert(nodes[i].requires.contains(d));
        }
    }
    lemma_kahn_complete(nodes, group, rank, seq![], nodes.len());
}

proof fn lemma_kahn_stops(nodes: Seq<DepNodeV>, group: Seq<char>, out: Seq<DepNodeV>, fuel: nat)
    ensures
        kahn(nodes, group, out, fuel).len() == out.len() + fuel || !exists|x: DepNodeV|
            is_next(nodes, group, kahn(nodes, group, out, fuel), x),
    decreases fuel,
{
    if fuel > 0 && exists|n: DepNodeV| is_next(nodes, group, out, n) {
        let n = choose|n: DepNodeV| is_next(nodes, group, out, n);
        lemma_kahn_stops(nodes, group, out.push(n), (fuel - 1) as nat);
    }
}

/// Where the order stops short, each node left over still waits on a
/// same-group node that was not placed: its in-degree stays above zero.
pub proof fn lemma_cycle_residual(nodes: Seq<DepNodeV>, group: Seq<char>)
    requires
        keys_unique(nodes),
        topo_order(nodes, group).len() < nodes.len(),
    ensures
        forall|i: int|
            0 <= i < nodes.len() && !has_key(topo_order(nodes, group), #[trigger] nodes[i].key) ==> exists|d: Seq<char>|
                nodes[i].requires.contains(d) && same_group(d, group) && !has_key(topo_order(nodes, group), d),
{
    let order = topo_order(nodes, group);
    lemma_kahn_stops(nodes, group, seq![], nodes.len());
    assert forall|i: int|
        0 <= i < nodes.len() && !has_key(order, #[trigger] nodes[i].key) implies exists|d: Seq<char>|
            nodes[i].requires.contains(d) && same_group(d, group) && !has_key(order, d) by {
        assert(nodes.contains(nodes[i]));
        if is_ready(nodes, group, order, nodes[i]) {
            lemma_exists_next(nodes, group, order, i);
        }
    }
}

proof fn lemma_kahn_distinct(nodes: Seq<DepNodeV>, group: Seq<char>, out: Seq<DepNodeV>, fuel: nat)
    requires
        out_keys_distinct(out),
    ensures
        out_keys_distinct(kahn(nodes, group, out, fuel)),
    decreases fuel,
{
    if fuel > 0 && exists|n: DepNodeV| is_next(nodes, group, out, n) {
        let n = choose|n: DepNodeV| is_next(nodes, group, out, n);
        lemma_push_distinct(out, n);
        lemma_kahn_distinct(nodes, group, out.push(n), (fuel - 1) as nat);
    }
}

/// Every node of `cyc` requires a same-group node of `cyc`.
pub open spec fn closed_cycle(nodes: Seq<DepNodeV>, group: Seq<char>, cyc: Set<Seq<char>>) -> bool {
    forall|i: int|
        0 <= i < nodes.len() && cyc.contains(#[trigger] nodes[i].key) ==> exists|d: Seq<char>|
            nodes[i].requires.contains(d) && same_group(d, group) && cyc.contains(d)
}

proof fn lemma_cycle_never_placed(nodes: Seq<DepNodeV>, group: Seq<char>, cyc: Set<Seq<char>>, out: Seq<DepNodeV>, fuel: nat)
    requires
        closed_cycle(nodes, group, cyc),
        forall|k: Seq<char>| cyc.contains(k) ==> !has_key(out, k),
    ensures
        forall|k: Seq<char>| cyc.contains(k) ==> !has_key(kahn(nodes, group, out, fuel), k),
    decreases fuel,
{
    if fuel > 0 && exists|n: DepNodeV| is_next(nodes, group, out, n) {
        let n = choose|n: DepNodeV| is_next(nodes, group, out, n);
        let o2 = out.push(n);
        if cyc.contains(n.key) {
            let i = choose|i: int| 0 <= i < nodes.len() && nodes[i] == n;
            assert(cyc.contains(nodes[i].key));
            let d = choose|d: Seq<char>| nodes[i].requires.contains(d) && same_group(d, group) && cyc.contains(d);
            assert(has_key(out, d));
        }
        assert forall|k: Seq<char>| cyc.contains(k) implies !has_key(o2, k) by {
            if has_key(o2, k) {
                let j = choose|j: int| 0 <= j < o2.len() && (#[trigger] o2[j]).key == k;
                if j < out.len() {
                    assert(out[j] == o2[j]);
                }
            }
        }
        lemma_cycle_never_placed(nodes, group, cyc, o2, (fuel - 1) as nat);
    }
}

/// A non-empty set of a group's nodes that each require another node of
/// the set is never placed, so the dependency order stops short and the
/// sort reports a cycle naming those nodes.
pub proof fn lemma_cycle_stops_order(nodes: Seq<DepNodeV>, group: Seq<char>, cyc: Set<Seq<char>>, k0: Seq<char>)
    requires
        keys_unique(nodes),
        cyc.contains(k0),
        forall|k: Seq<char>| cyc.contains(k) ==> has_key(nodes, k),
        closed_cycle(nodes, group, cyc),
    ensures
        forall|k: Seq<char>| cyc.contains(k) ==> !has_key(topo_order(nodes, group), k),
        topo_order(nodes, group).len() < nodes.len(),
{
    let order = topo_order(nodes, group);
    lemma_cycle_never_placed(nodes, group, cyc, seq![], nodes.len());
    lemma_kahn_distinct(nodes, group, seq![], nodes.len());
    lemma_kahn_sound(nodes, group, seq![], nodes.len());
    let kn = nodes.map_values(|n: DepNodeV| n.key);
    let ko = order.map_values(|n: DepNodeV| n.key);
    assert(kn.no_duplicates()) by {
        assert forall|i: int, j: int| 0 <= i < kn.len() && 0 <= j < kn.len() && i != j implies kn[i] != kn[j] by {
            assert(kn[i] == nodes[i].key);
            assert(kn[j] == nodes[j].key);
        }
    }
    assert(ko.no_duplicates()) by {
        assert forall|i: int, j: int| 0 <= i < ko.len() && 0 <= j < ko.len() && i != j implies ko[i] != ko[j] by {
            assert(ko[i] == order[i].key);
            assert(ko[j] == order[j].key);
        }
    }
    kn.unique_seq_to_set();
    ko.unique_seq_to_set();
    let j0 = choose|j: int| 0 <= j < nodes.len() && (#[trigger] nodes[j]).key == k0;
    assert(kn[j0] == k0);
    assert(kn.to_set().contains(k0));
    assert(ko.to_set().subset_of(kn.to_set().remove(k0))) by {
        assert forall|k: Seq<char>| ko.to_set().contains(k) implies kn.to_set().remove(k0).contains(k) by {
            let i = choose|i: int| 0 <= i < ko.len() && ko[i] == k;
            assert(ko[i] == order[i].key);
            assert(nodes.contains(order[i]));
            let m = choose|m: int| 0 <= m < nodes.len() && nodes[m] == order[i];
            assert(kn[m] == k);
            if k == k0 {
                assert(has_key(order, k0));
            }
        }
    }
    vstd::set_lib::lemma_len_subset(ko.to_set(), kn.to_set().remove(k0));
}

} // verus!
