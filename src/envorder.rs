//! Ordering of one block's environment assignments by the `$NAME` and
//! `${NAME}` references between them.

use vstd::prelude::*;
use crate::quote::{ident_end, is_alpha_, is_ident, is_ident_char};
use crate::text::{chars_of, string_of};
use crate::varmap::{PairV, VarMap};
use crate::text::{lemma_lex_irreflexive, lex_lt};

verus! {

/// The names that `s` references from position `i` on, left to right:
/// `$` and a name, or `${`, a name and `}`.
pub open spec fn refs_from(s: Seq<char>, i: int) -> Seq<Seq<char>>
    decreases s.len() - i,
{
    if i < 0 || i >= s.len() {
        seq![]
    } else if s[i] == '$' && i + 1 < s.len() && is_alpha_(s[i + 1]) {
        let j = ident_end(s, i + 1);
        if i + 1 < j <= s.len() {
            seq![s.subrange(i + 1, j)] + refs_from(s, j)
        } else {
            refs_from(s, i + 1)
        }
    } else if s[i] == '$' && i + 2 < s.len() && s[i + 1] == '{' && is_alpha_(s[i + 2]) {
        let j = ident_end(s, i + 2);
        if i + 2 < j < s.len() && s[j] == '}' {
            seq![s.subrange(i + 2, j)] + refs_from(s, j + 1)
        } else {
            refs_from(s, i + 1)
        }
    } else {
        refs_from(s, i + 1)
    }
}

pub open spec fn refs_of(s: Seq<char>) -> Seq<Seq<char>> {
    refs_from(s, 0)
}

fn find_ident_end(s: &Vec<char>, j: usize) -> (r: usize)
    requires
        j <= s@.len(),
    ensures
        r == ident_end(s@, j as int),
        j <= r <= s@.len(),
        j < s@.len() && is_ident(s@[j as int]) ==> r > j,
{
    let mut e = j;
    while e < s.len() && is_ident_char(s[e])
        invariant
            j <= e <= s@.len(),
            ident_end(s@, j as int) == ident_end(s@, e as int),
        decreases s@.len() - e,
    {
        e += 1;
    }
    e
}

fn is_alpha_char(c: char) -> (r: bool)
    ensures
        r == is_alpha_(c),
{
    ('a' <= c && c <= 'z') || ('A' <= c && c <= 'Z') || c == '_'
}

pub fn extract_refs(v: &str) -> (r: Vec<String>)
    ensures
        r@.map_values(|x: String| x@) == refs_of(v@),
{
    let s = chars_of(v);
    let n = s.len();
    let mut out: Vec<String> = Vec::new();
    let mut i: usize = 0;
    assert(out@.map_values(|x: String| x@) + refs_from(s@, 0) =~= refs_from(s@, 0));
    while i < n
        invariant
            n == s@.len(),
            s@ == v@,
            i <= n,
            refs_from(s@, 0) == out@.map_values(|x: String| x@) + refs_from(s@, i as int),
        decreases n - i,
    {
        let ghost o = out@.map_values(|x: String| x@);
        if s[i] == '$' && i + 1 < n && is_alpha_char(s[i + 1]) {
            let j = find_ident_end(&s, i + 1);
            out.push(string_of(&s, i + 1, j));
            assert(out@.map_values(|x: String| x@) =~= o.push(s@.subrange(i + 1, j as int)));
            assert(out@.map_values(|x: String| x@) + refs_from(s@, j as int) =~= o + refs_from(s@, i as int));
            i = j;
        } else if s[i] == '$' && n - i > 2 && s[i + 1] == '{' && is_alpha_char(s[i + 2]) {
            let j = find_ident_end(&s, i + 2);
            if j < n && s[j] == '}' {
                out.push(string_of(&s, i + 2, j));
                assert(out@.map_values(|x: String| x@) =~= o.push(s@.subrange(i + 2, j as int)));
                assert(out@.map_values(|x: String| x@) + refs_from(s@, j + 1) =~= o + refs_from(s@, i as int));
                i = j + 1;
            } else {
                i += 1;
            }
        } else {
            i += 1;
        }
    }
    assert(out@.map_values(|x: String| x@) + refs_from(s@, n as int) =~= out@.map_values(|x: String| x@));
    out
}

/// Entry `i` references the key of entry `j`.
pub open spec fn refers_to(p: Seq<PairV>, i: int, j: int) -> bool {
    refs_of(p[i].1).contains(p[j].0)
}

/// Each entry that entry `i` references is placed.
pub open spec fn deps_done(p: Seq<PairV>, placed: Seq<int>, i: int) -> bool {
    forall|j: int| 0 <= j < p.len() && #[trigger] refers_to(p, i, j) ==> placed.contains(j)
}

/// The entries below `k`, ascending, that reference entry `n` and whose
/// references are now all placed: those whose in-degree drops to zero.
pub open spec fn ready_after(p: Seq<PairV>, placed: Seq<int>, n: int, k: nat) -> Seq<int>
    decreases k,
{
    if k == 0 {
        seq![]
    } else {
        ready_after(p, placed, n, (k - 1) as nat) + if refers_to(p, k - 1, n) && deps_done(
            p,
            placed,
            k - 1,
        ) {
            seq![k - 1]
        } else {
            seq![]
        }
    }
}

/// The entries below `k`, ascending, that reference no entry of the block.
pub open spec fn ready_at_start(p: Seq<PairV>, k: nat) -> Seq<int>
    decreases k,
{
    if k == 0 {
        seq![]
    } else {
        ready_at_start(p, (k - 1) as nat) + if deps_done(p, seq![], k - 1) {
            seq![k - 1]
        } else {
            seq![]
        }
    }
}

/// Kahn's algorithm with a first-in first-out queue: take the head, place
/// it, and queue the entries it frees in key order.
pub open spec fn env_fifo(p: Seq<PairV>, placed: Seq<int>, queue: Seq<int>, fuel: nat) -> Seq<int>
    decreases fuel,
{
    if fuel == 0 || queue.len() == 0 {
        placed
    } else {
        let n = queue[0];
        let pl = placed.push(n);
        env_fifo(p, pl, queue.drop_first() + ready_after(p, pl, n, p.len()), (fuel - 1) as nat)
    }
}

/// The entries below `k` that `placed` leaves out, ascending.
pub open spec fn left_out(placed: Seq<int>, k: nat) -> Seq<int>
    decreases k,
{
    if k == 0 {
        seq![]
    } else if placed.contains(k - 1) {
        left_out(placed, (k - 1) as nat)
    } else {
        left_out(placed, (k - 1) as nat).push(k - 1)
    }
}

/// Positions of the entries in emission order: Kahn's order by references,
/// then the entries caught in a cycle, in key order (the block's order).
pub open spec fn env_order(p: Seq<PairV>) -> Seq<int> {
    let t = env_fifo(p, seq![], ready_at_start(p, p.len()), p.len());
    t + left_out(t, p.len())
}

fn refs_contain(refs: &Vec<String>, k: &String) -> (r: bool)
    ensures
        r == refs@.map_values(|x: String| x@).contains(k@),
{
    let ghost rv = refs@.map_values(|x: String| x@);
    let mut i: usize = 0;
    while i < refs.len()
        invariant
            i <= refs@.len(),
            rv == refs@.map_values(|x: String| x@),
            forall|m: int| 0 <= m < i ==> rv[m] != k@,
        decreases refs@.len() - i,
    {
        if refs[i] == *k {
            assert(rv[i as int] == k@);
            return true;
        }
        i += 1;
    }
    false
}

fn deps_done_exec(assigns: &VarMap, refs: &Vec<Vec<String>>, placed: &Vec<bool>, i: usize, og: Ghost<Seq<int>>) -> (r: bool)
    requires
        refs@.len() == assigns.pairs().len(),
        placed@.len() == assigns.pairs().len(),
        i < assigns.pairs().len(),
        forall|k: int| 0 <= k < refs@.len() ==> (#[trigger] refs@[k])@.map_values(|x: String| x@) == refs_of(assigns.pairs()[k].1),
        forall|q: int| 0 <= q < placed@.len() ==> (placed@[q] <==> og@.contains(q)),
    ensures
        r == deps_done(assigns.pairs(), og@, i as int),
{
    let n = assigns.len();
    let mut j: usize = 0;
    while j < n
        invariant
            n == assigns.pairs().len(),
            j <= n,
            refs@.len() == n,
            placed@.len() == n,
            i < n,
            forall|k: int| 0 <= k < refs@.len() ==> (#[trigger] refs@[k])@.map_values(|x: String| x@) == refs_of(assigns.pairs()[k].1),
            forall|q: int| 0 <= q < placed@.len() ==> (placed@[q] <==> og@.contains(q)),
            forall|q: int| 0 <= q < j && #[trigger] refers_to(assigns.pairs(), i as int, q) ==> og@.contains(q),
        decreases n - j,
    {
        if !placed[j] && refs_contain(&refs[i], assigns.key_at(j)) {
            assert(refers_to(assigns.pairs(), i as int, j as int));
            return false;
        }
        j += 1;
    }
    true
}

pub open spec fn no_dups(s: Seq<int>) -> bool {
    forall|a: int, b: int| 0 <= a < s.len() && 0 <= b < s.len() && a != b ==> s[a] != s[b]
}

/// What holds along the queue run: placed and queued positions are distinct
/// and in range; a queued entry's references are all placed; a placed
/// entry's references were placed before it.
pub open spec fn fifo_inv(p: Seq<PairV>, placed: Seq<int>, queue: Seq<int>) -> bool {
    &&& no_dups(placed + queue)
    &&& forall|a: int| 0 <= a < (placed + queue).len() ==> 0 <= #[trigger] (placed + queue)[a] < p.len()
    &&& forall|a: int| 0 <= a < queue.len() ==> deps_done(p, placed, #[trigger] queue[a])
    &&& forall|a: int| 0 <= a < placed.len() ==> deps_done(p, placed.subrange(0, a), #[trigger] placed[a])
}

proof fn lemma_ready_after_props(p: Seq<PairV>, placed: Seq<int>, n: int, k: nat)
    requires
        k <= p.len(),
    ensures
        forall|a: int| 0 <= a < ready_after(p, placed, n, k).len() ==> 0 <= #[trigger] ready_after(p, placed, n, k)[a] < k,
        forall|a: int| 0 <= a < ready_after(p, placed, n, k).len() ==> refers_to(p, #[trigger] ready_after(p, placed, n, k)[a], n)
            && deps_done(p, placed, ready_after(p, placed, n, k)[a]),
        forall|a: int, b: int| 0 <= a < b < ready_after(p, placed, n, k).len() ==> #[trigger] ready_after(p, placed, n, k)[a] < #[trigger] ready_after(p, placed, n, k)[b],
    decreases k,
{
    if k > 0 {
        lemma_ready_after_props(p, placed, n, (k - 1) as nat);
        let prev = ready_after(p, placed, n, (k - 1) as nat);
        if refers_to(p, k - 1, n) && deps_done(p, placed, k - 1) {
            assert(ready_after(p, placed, n, k) =~= prev.push(k - 1));
        } else {
            assert(ready_after(p, placed, n, k) =~= prev);
        }
    }
}

proof fn lemma_ready_at_start_props(p: Seq<PairV>, k: nat)
    requires
        k <= p.len(),
    ensures
        forall|a: int| 0 <= a < ready_at_start(p, k).len() ==> 0 <= #[trigger] ready_at_start(p, k)[a] < k && deps_done(p, seq![], ready_at_start(p, k)[a]),
        forall|a: int, b: int| 0 <= a < b < ready_at_start(p, k).len() ==> #[trigger] ready_at_start(p, k)[a] < #[trigger] ready_at_start(p, k)[b],
    decreases k,
{
    if k > 0 {
        lemma_ready_at_start_props(p, (k - 1) as nat);
        let prev = ready_at_start(p, (k - 1) as nat);
        if deps_done(p, seq![], k - 1) {
            assert(ready_at_start(p, k) =~= prev.push(k - 1));
        } else {
            assert(ready_at_start(p, k) =~= prev);
        }
    }
}

proof fn lemma_deps_done_grows(p: Seq<PairV>, a: Seq<int>, b: Seq<int>, i: int)
    requires
        deps_done(p, a, i),
        forall|x: int| a.contains(x) ==> b.contains(x),
    ensures
        deps_done(p, b, i),
{
}

proof fn lemma_fifo_step(p: Seq<PairV>, placed: Seq<int>, queue: Seq<int>)
    requires
        fifo_inv(p, placed, queue),
        queue.len() > 0,
    ensures
        fifo_inv(p, placed.push(queue[0]), queue.drop_first() + ready_after(p, placed.push(queue[0]), queue[0], p.len())),
{
    let n = queue[0];
    let pl = placed.push(n);
    let fr = ready_after(p, pl, n, p.len());
    let q2 = queue.drop_first() + fr;
    let c = placed + queue;
    let c2 = pl + q2;
    lemma_ready_after_props(p, pl, n, p.len());
    assert(c[placed.len() as int] == n);
    assert((pl + queue.drop_first()) =~= c);
    // the freed entries were neither placed nor queued
    assert forall|a: int| 0 <= a < fr.len() implies !c.contains(#[trigger] fr[a]) by {
        let k = fr[a];
        assert(refers_to(p, k, n));
        if c.contains(k) {
            let w = choose|w: int| 0 <= w < c.len() && c[w] == k;
            if w < placed.len() {
                assert(placed[w] == k);
                assert(deps_done(p, placed.subrange(0, w), placed[w]));
                assert(placed.subrange(0, w).contains(n));
                let u = choose|u: int| 0 <= u < w && placed.subrange(0, w)[u] == n;
                assert(c[u] == n);
                assert(u != placed.len());
            } else {
                let qa = w - placed.len();
                assert(queue[qa] == k);
                assert(deps_done(p, placed, queue[qa]));
                assert(placed.contains(n));
                let u = choose|u: int| 0 <= u < placed.len() && placed[u] == n;
                assert(c[u] == n);
            }
        }
    }
    assert(c2 =~= c + fr);
    assert(no_dups(c2)) by {
        assert forall|a: int, b: int| 0 <= a < c2.len() && 0 <= b < c2.len() && a != b implies c2[a] != c2[b] by {
            if a < c.len() && b < c.len() {
                assert(c2[a] == c[a] && c2[b] == c[b]);
            } else if a >= c.len() && b >= c.len() {
                assert(c2[a] == fr[a - c.len()] && c2[b] == fr[b - c.len()]);
                if a < b {
                    assert(fr[a - c.len()] < fr[b - c.len()]);
                } else {
                    assert(fr[b - c.len()] < fr[a - c.len()]);
                }
            } else if a < c.len() {
                assert(c2[b] == fr[b - c.len()]);
                assert(c2[a] == c[a]);
                assert(!c.contains(fr[b - c.len()]));
            } else {
                assert(c2[a] == fr[a - c.len()]);
                assert(c2[b] == c[b]);
                assert(!c.contains(fr[a - c.len()]));
            }
        }
    }
    assert forall|a: int| 0 <= a < c2.len() implies 0 <= #[trigger] c2[a] < p.len() by {
        if a < c.len() {
            assert(c2[a] == c[a]);
        } else {
            assert(c2[a] == fr[a - c.len()]);
        }
    }
    assert forall|x: int| placed.contains(x) implies pl.contains(x) by {
        let w = choose|w: int| 0 <= w < placed.len() && placed[w] == x;
        assert(pl[w] == x);
    }
    assert forall|a: int| 0 <= a < q2.len() implies deps_done(p, pl, #[trigger] q2[a]) by {
        if a < queue.len() - 1 {
            assert(q2[a] == queue[a + 1]);
            assert(deps_done(p, placed, queue[a + 1]));
            lemma_deps_done_grows(p, placed, pl, queue[a + 1]);
        } else {
            assert(q2[a] == fr[a - (queue.len() - 1)]);
        }
    }
    assert forall|a: int| 0 <= a < pl.len() implies deps_done(p, pl.subrange(0, a), #[trigger] pl[a]) by {
        if a < placed.len() {
            assert(pl.subrange(0, a) =~= placed.subrange(0, a));
            assert(pl[a] == placed[a]);
        } else {
            assert(pl.subrange(0, a) =~= placed);
            assert(deps_done(p, placed, queue[0]));
        }
    }
}

proof fn lemma_fifo_distinct(p: Seq<PairV>, placed: Seq<int>, queue: Seq<int>, fuel: nat)
    requires
        fifo_inv(p, placed, queue),
    ensures
        no_dups(env_fifo(p, placed, queue, fuel)),
        forall|a: int| 0 <= a < env_fifo(p, placed, queue, fuel).len() ==> 0 <= #[trigger] env_fifo(p, placed, queue, fuel)[a] < p.len(),
    decreases fuel,
{
    if fuel == 0 || queue.len() == 0 {
        assert forall|a: int, b: int| 0 <= a < placed.len() && 0 <= b < placed.len() && a != b implies placed[a] != placed[b] by {
            assert((placed + queue)[a] == placed[a]);
            assert((placed + queue)[b] == placed[b]);
        }
        assert forall|a: int| 0 <= a < placed.len() implies 0 <= #[trigger] placed[a] < p.len() by {
            assert((placed + queue)[a] == placed[a]);
        }
    } else {
        lemma_fifo_step(p, placed, queue);
        let n = queue[0];
        lemma_fifo_distinct(p, placed.push(n), queue.drop_first() + ready_after(p, placed.push(n), n, p.len()), (fuel - 1) as nat);
    }
}

proof fn lemma_left_out_props(t: Seq<int>, k: nat)
    ensures
        forall|x: int| 0 <= x < k ==> (left_out(t, k).contains(x) <==> !t.contains(x)),
        forall|a: int| 0 <= a < left_out(t, k).len() ==> 0 <= #[trigger] left_out(t, k)[a] < k && !t.contains(left_out(t, k)[a]),
        forall|a: int, b: int| 0 <= a < b < left_out(t, k).len() ==> #[trigger] left_out(t, k)[a] < #[trigger] left_out(t, k)[b],
    decreases k,
{
    if k > 0 {
        lemma_left_out_props(t, (k - 1) as nat);
        let prev = left_out(t, (k - 1) as nat);
        if !t.contains(k - 1) {
            let cur = prev.push(k - 1);
            assert(cur[prev.len() as int] == k - 1);
            assert forall|x: int| 0 <= x < k implies (cur.contains(x) <==> !t.contains(x)) by {
                if x < k - 1 && cur.contains(x) {
                    let w = choose|w: int| 0 <= w < cur.len() && cur[w] == x;
                    if w < prev.len() {
                        assert(prev[w] == x);
                    }
                }
                if x < k - 1 && prev.contains(x) {
                    let w = choose|w: int| 0 <= w < prev.len() && prev[w] == x;
                    assert(cur[w] == x);
                }
            }
        }
    }
}

/// The dependency order names each entry of the block exactly once.
pub proof fn lemma_env_order_permutes(p: Seq<PairV>)
    ensures
        no_dups(env_order(p)),
        forall|a: int| 0 <= a < env_order(p).len() ==> 0 <= #[trigger] env_order(p)[a] < p.len(),
        forall|x: int| 0 <= x < p.len() ==> env_order(p).contains(x),
{
    let rs = ready_at_start(p, p.len());
    lemma_ready_at_start_props(p, p.len());
    let e: Seq<int> = seq![];
    assert(e + rs =~= rs);
    assert(fifo_inv(p, e, rs)) by {
        assert forall|a: int, b: int| 0 <= a < rs.len() && 0 <= b < rs.len() && a != b implies rs[a] != rs[b] by {
            if a < b {
                assert(rs[a] < rs[b]);
            } else {
                assert(rs[b] < rs[a]);
            }
        }
        assert forall|a: int| 0 <= a < rs.len() implies deps_done(p, e, #[trigger] rs[a]) by {
        }
    }
    let t = env_fifo(p, e, rs, p.len());
    lemma_fifo_distinct(p, e, rs, p.len());
    let l = left_out(t, p.len());
    lemma_left_out_props(t, p.len());
    let o = t + l;
    assert(env_order(p) == o);
    assert forall|a: int, b: int| 0 <= a < o.len() && 0 <= b < o.len() && a != b implies o[a] != o[b] by {
        if a < t.len() && b < t.len() {
        } else if a >= t.len() && b >= t.len() {
            if a < b {
                assert(l[a - t.len()] < l[b - t.len()]);
            } else {
                assert(l[b - t.len()] < l[a - t.len()]);
            }
        } else if a < t.len() {
            assert(!t.contains(l[b - t.len()]));
            assert(o[a] == t[a]);
        } else {
            assert(!t.contains(l[a - t.len()]));
            assert(o[b] == t[b]);
        }
    }
    assert forall|a: int| 0 <= a < o.len() implies 0 <= #[trigger] o[a] < p.len() by {
        if a < t.len() {
            assert(o[a] == t[a]);
        } else {
            assert(o[a] == l[a - t.len()]);
        }
    }
    assert forall|x: int| 0 <= x < p.len() implies o.contains(x) by {
        if t.contains(x) {
            let w = choose|w: int| 0 <= w < t.len() && t[w] == x;
            assert(o[w] == x);
        } else {
            assert(l.contains(x));
            let w = choose|w: int| 0 <= w < l.len() && l[w] == x;
            assert(o[t.len() + w] == x);
        }
    }
}

/// The assignments of `assigns` in dependency order; see `env_order`.
pub fn order_env_assignments(assigns: &VarMap) -> (r: Vec<(String, String)>)
    ensures
        r@.len() == env_order(assigns.pairs()).len(),
        forall|i: int|
            0 <= i < r@.len() ==> (#[trigger] r@[i]).0@ == assigns.pairs()[env_order(assigns.pairs())[i]].0
                && r@[i].1@ == assigns.pairs()[env_order(assigns.pairs())[i]].1,
        forall|i: int, j: int| 0 <= i < r@.len() && 0 <= j < r@.len() && i != j ==> (#[trigger] r@[i]).0@ != (#[trigger] r@[j]).0@,
        forall|q: int| 0 <= q < assigns.pairs().len() ==> exists|i: int| 0 <= i < r@.len() && (#[trigger] r@[i]).0@ == #[trigger] assigns.pairs()[q].0,
{
    let ghost p = assigns.pairs();
    let n = assigns.len();
    let mut refs: Vec<Vec<String>> = Vec::new();
    let mut i: usize = 0;
    while i < n
        invariant
            n == p.len(),
            p == assigns.pairs(),
            i <= n,
            refs@.len() == i,
            forall|k: int| 0 <= k < i ==> (#[trigger] refs@[k])@.map_values(|x: String| x@) == refs_of(p[k].1),
        decreases n - i,
    {
        refs.push(extract_refs(assigns.value_at(i).as_str()));
        i += 1;
    }
    let mut placed: Vec<bool> = Vec::new();
    let mut c: usize = 0;
    while c < n
        invariant
            c <= n,
            placed@.len() == c,
            forall|k: int| 0 <= k < c ==> !placed@[k],
        decreases n - c,
    {
        placed.push(false);
        c += 1;
    }
    let ghost rs = ready_at_start(p, n as nat);
    let mut queue: Vec<usize> = Vec::new();
    let ghost mut gq: Seq<int> = seq![];
    let mut s0: usize = 0;
    while s0 < n
        invariant
            n == p.len(),
            p == assigns.pairs(),
            refs@.len() == n,
            forall|k: int| 0 <= k < n ==> (#[trigger] refs@[k])@.map_values(|x: String| x@) == refs_of(p[k].1),
            placed@.len() == n,
            forall|k: int| 0 <= k < n ==> !placed@[k],
            s0 <= n,
            gq == ready_at_start(p, s0 as nat),
            gq.len() == queue@.len(),
            forall|q: int| 0 <= q < gq.len() ==> gq[q] == queue@[q] as int && 0 <= gq[q] < n,
        decreases n - s0,
    {
        proof {
            assert forall|q: int| 0 <= q < n implies (placed@[q] <==> Seq::<int>::empty().contains(q)) by {}
        }
        if deps_done_exec(assigns, &refs, &placed, s0, Ghost(Seq::<int>::empty())) {
            queue.push(s0);
            proof {
                gq = gq + seq![s0 as int];
            }
        } else {
            assert(gq =~= gq + Seq::<int>::empty());
        }
        s0 += 1;
    }
    let mut order: Vec<usize> = Vec::new();
    let ghost mut og: Seq<int> = seq![];
    let mut head: usize = 0;
    let mut steps: usize = 0;
    assert(gq.subrange(0, gq.len() as int) =~= rs);
    while steps < n && head < queue.len()
        invariant
            n == p.len(),
            p == assigns.pairs(),
            refs@.len() == n,
            forall|k: int| 0 <= k < n ==> (#[trigger] refs@[k])@.map_values(|x: String| x@) == refs_of(p[k].1),
            placed@.len() == n,
            forall|q: int| 0 <= q < n ==> (placed@[q] <==> og.contains(q)),
            forall|q: int| 0 <= q < og.len() ==> 0 <= #[trigger] og[q] < n,
            order@.len() == og.len(),
            forall|q: int| 0 <= q < og.len() ==> og[q] == order@[q] as int,
            og.len() == steps,
            steps <= n,
            head <= queue@.len(),
            gq.len() == queue@.len(),
            forall|q: int| 0 <= q < gq.len() ==> gq[q] == queue@[q] as int && 0 <= gq[q] < n,
            env_fifo(p, seq![], rs, n as nat) == env_fifo(p, og, gq.subrange(head as int, gq.len() as int), (n - steps) as nat),
        decreases n - steps,
    {
        let x = queue[head];
        let ghost qv = gq.subrange(head as int, gq.len() as int);
        assert(qv[0] == x as int);
        head += 1;
        placed.set(x, true);
        order.push(x);
        let ghost og2 = og.push(x as int);
        proof {
            assert forall|q: int| 0 <= q < n implies (placed@[q] <==> og2.contains(q)) by {
                if og2.contains(q) && q != x {
                    let w = choose|w: int| 0 <= w < og2.len() && og2[w] == q;
                    assert(og[w] == q);
                }
                if og.contains(q) {
                    let w = choose|w: int| 0 <= w < og.len() && og[w] == q;
                    assert(og2[w] == q);
                }
                if q == x {
                    assert(og2[og.len() as int] == q);
                }
            }
            og = og2;
        }
        let ghost base = gq;
        let mut k: usize = 0;
        while k < n
            invariant
                n == p.len(),
                p == assigns.pairs(),
                refs@.len() == n,
                forall|kk: int| 0 <= kk < n ==> (#[trigger] refs@[kk])@.map_values(|x: String| x@) == refs_of(p[kk].1),
                placed@.len() == n,
                forall|q: int| 0 <= q < n ==> (placed@[q] <==> og.contains(q)),
                x < n,
                k <= n,
                gq == base + ready_after(p, og, x as int, k as nat),
                gq.len() == queue@.len(),
                forall|q: int| 0 <= q < gq.len() ==> gq[q] == queue@[q] as int && 0 <= gq[q] < n,
            decreases n - k,
        {
            let frees = refs_contain(&refs[k], assigns.key_at(x)) && deps_done_exec(assigns, &refs, &placed, k, Ghost(og));
            if frees {
                queue.push(k);
                proof {
                    assert(gq + seq![k as int] =~= base + ready_after(p, og, x as int, (k + 1) as nat));
                    gq = gq + seq![k as int];
                }
            } else {
                assert(gq =~= base + ready_after(p, og, x as int, (k + 1) as nat));
            }
            k += 1;
        }
        proof {
            assert(qv.drop_first() + ready_after(p, og, x as int, n as nat) =~= gq.subrange(head as int, gq.len() as int));
        }
        steps += 1;
    }
    let ghost t = og;
    let mut k: usize = 0;
    assert(og =~= t + left_out(t, 0));
    while k < n
        invariant
            n == p.len(),
            placed@.len() == n,
            forall|q: int| 0 <= q < n ==> (placed@[q] <==> t.contains(q)),
            forall|q: int| 0 <= q < t.len() ==> 0 <= #[trigger] t[q] < n,
            k <= n,
            order@.len() == og.len(),
            forall|q: int| 0 <= q < og.len() ==> 0 <= #[trigger] og[q] < n,
            forall|q: int| 0 <= q < og.len() ==> og[q] == order@[q] as int,
            og == t + left_out(t, k as nat),
        decreases n - k,
    {
        if !placed[k] {
            order.push(k);
            proof {
                assert(og.push(k as int) =~= t + left_out(t, (k + 1) as nat));
                og = og.push(k as int);
            }
        } else {
            assert(og =~= t + left_out(t, (k + 1) as nat));
        }
        k += 1;
    }
    assert(t == env_fifo(p, seq![], rs, n as nat));
    let mut r: Vec<(String, String)> = Vec::new();
    let mut m: usize = 0;
    while m < order.len()
        invariant
            n == p.len(),
            p == assigns.pairs(),
            order@.len() == og.len(),
            og == env_order(p),
            forall|q: int| 0 <= q < og.len() ==> og[q] == order@[q] as int,
            forall|q: int| 0 <= q < og.len() ==> 0 <= #[trigger] og[q] < n,
            m <= order@.len(),
            r@.len() == m,
            forall|q: int|
                0 <= q < m ==> (#[trigger] r@[q]).0@ == p[og[q]].0 && r@[q].1@ == p[og[q]].1,
        decreases order@.len() - m,
    {
        let idx = order[m];
        assert(og[m as int] == idx);
        r.push((assigns.key_at(idx).clone(), assigns.value_at(idx).clone()));
        m += 1;
    }
    proof {
        lemma_env_order_permutes(p);
        assert forall|i: int, j: int| 0 <= i < r@.len() && 0 <= j < r@.len() && i != j implies (#[trigger] r@[i]).0@ != (#[trigger] r@[j]).0@ by {
            let a = og[i];
            let b = og[j];
            assert(a != b);
            if a < b {
                assert(lex_lt(p[a].0, p[b].0));
                lemma_lex_irreflexive(p[a].0);
            } else {
                assert(lex_lt(p[b].0, p[a].0));
                lemma_lex_irreflexive(p[b].0);
            }
        }
        assert forall|q: int| 0 <= q < p.len() implies exists|i: int| 0 <= i < r@.len() && (#[trigger] r@[i]).0@ == #[trigger] p[q].0 by {
            assert(og.contains(q));
            let w = choose|w: int| 0 <= w < og.len() && og[w] == q;
            assert(r@[w].0@ == p[q].0);
        }
    }
    r
}

} // verus!
