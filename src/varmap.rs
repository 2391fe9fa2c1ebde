//! An ordered map of variables, such as an environment snapshot.

use vstd::prelude::*;
use crate::text::{copy_str, lemma_lex_asymmetric, lemma_lex_transitive, lemma_lex_total, less_than, lex_lt};

verus! {

pub type PairV = (Seq<char>, Seq<char>);

/// What a sequence of assignments leaves behind: the last value of each key.
pub open spec fn map_of(s: Seq<PairV>) -> Map<Seq<char>, Seq<char>>
    decreases s.len(),
{
    if s.len() == 0 {
        Map::empty()
    } else {
        map_of(s.drop_last()).insert(s.last().0, s.last().1)
    }
}

pub open spec fn pairs_view(s: Seq<(String, String)>) -> Seq<PairV> {
    s.map_values(|p: (String, String)| (p.0@, p.1@))
}

/// Keys strictly ascending by code points, so each key once.
pub open spec fn keys_ascending(s: Seq<PairV>) -> bool {
    forall|i: int, j: int| 0 <= i < j < s.len() ==> lex_lt(#[trigger] s[i].0, #[trigger] s[j].0)
}

/// How many keys of `s` come before `k`.
pub open spec fn count_less(s: Seq<PairV>, k: Seq<char>) -> int
    decreases s.len(),
{
    if s.len() == 0 {
        0
    } else {
        count_less(s.drop_last(), k) + if lex_lt(s.last().0, k) {
            1int
        } else {
            0int
        }
    }
}

/// Variables in ascending key order, each key once, as an ordered map keeps them.
#[derive(Debug)]
pub struct VarMap {
    entries: Vec<(String, String)>,
}

proof fn lemma_count_less(s: Seq<PairV>, k: Seq<char>, p: int)
    requires
        0 <= p <= s.len(),
        forall|j: int| 0 <= j < p ==> lex_lt(#[trigger] s[j].0, k),
        forall|j: int| p <= j < s.len() ==> lex_lt(k, #[trigger] s[j].0),
    ensures
        count_less(s, k) == p,
    decreases s.len(),
{
    if s.len() > 0 {
        if p == s.len() {
            lemma_count_less(s.drop_last(), k, p - 1);
        } else {
            lemma_lex_asymmetric(k, s.last().0);
            lemma_count_less(s.drop_last(), k, p);
        }
    }
}

proof fn lemma_map_of_insert_absent(s: Seq<PairV>, i: int, k: Seq<char>, v: Seq<char>)
    requires
        0 <= i <= s.len(),
        forall|j: int| 0 <= j < s.len() ==> s[j].0 != k,
    ensures
        map_of(s.insert(i, (k, v))) == map_of(s).insert(k, v),
    decreases s.len(),
{
    let t = s.insert(i, (k, v));
    if i == s.len() {
        assert(t.drop_last() =~= s);
    } else {
        assert(t.drop_last() =~= s.drop_last().insert(i, (k, v)));
        lemma_map_of_insert_absent(s.drop_last(), i, k, v);
        assert(t.last() == s.last());
        assert(map_of(t) =~= map_of(s).insert(k, v));
    }
}

proof fn lemma_map_of_last(s: Seq<PairV>, i: int, k: Seq<char>)
    requires
        0 <= i < s.len(),
        s[i].0 == k,
        forall|j: int| i < j < s.len() ==> s[j].0 != k,
    ensures
        map_of(s).contains_key(k),
        map_of(s)[k] == s[i].1,
    decreases s.len(),
{
    if i < s.len() - 1 {
        lemma_map_of_last(s.drop_last(), i, k);
    }
}

proof fn lemma_map_of_absent(s: Seq<PairV>, k: Seq<char>)
    requires
        forall|j: int| 0 <= j < s.len() ==> s[j].0 != k,
    ensures
        !map_of(s).contains_key(k),
    decreases s.len(),
{
    if s.len() > 0 {
        lemma_map_of_absent(s.drop_last(), k);
    }
}

proof fn lemma_map_of_update(s: Seq<PairV>, i: int, k: Seq<char>, v: Seq<char>)
    requires
        0 <= i < s.len(),
        s[i].0 == k,
        forall|j: int| i < j < s.len() ==> s[j].0 != k,
    ensures
        map_of(s.update(i, (k, v))) == map_of(s).insert(k, v),
    decreases s.len(),
{
    let t = s.update(i, (k, v));
    if i == s.len() - 1 {
        assert(t.drop_last() =~= s.drop_last());
        assert(map_of(t) =~= map_of(s).insert(k, v));
    } else {
        assert(t.drop_last() =~= s.drop_last().update(i, (k, v)));
        lemma_map_of_update(s.drop_last(), i, k, v);
        assert(map_of(t) =~= map_of(s).insert(k, v));
    }
}

/// Where `k` was last set, or -1.
pub open spec fn last_key_index(s: Seq<PairV>, k: Seq<char>) -> int
    decreases s.len(),
{
    if s.len() == 0 {
        -1
    } else if s.last().0 == k {
        s.len() - 1
    } else {
        last_key_index(s.drop_last(), k)
    }
}

/// The assignments after setting `k`: in place where it is set, else in key order.
pub open spec fn assign_pair(s: Seq<PairV>, k: Seq<char>, v: Seq<char>) -> Seq<PairV> {
    let i = last_key_index(s, k);
    if i < 0 {
        s.insert(count_less(s, k), (k, v))
    } else {
        s.update(i, (k, v))
    }
}

proof fn lemma_last_key_index(s: Seq<PairV>, i: int, k: Seq<char>)
    requires
        -1 <= i < s.len(),
        i >= 0 ==> s[i].0 == k,
        forall|j: int| i < j < s.len() ==> s[j].0 != k,
    ensures
        last_key_index(s, k) == i,
    decreases s.len(),
{
    if s.len() > 0 && i < s.len() - 1 {
        lemma_last_key_index(s.drop_last(), i, k);
    }
}

impl View for VarMap {
    type V = Map<Seq<char>, Seq<char>>;

    open spec fn view(&self) -> Map<Seq<char>, Seq<char>> {
        map_of(self.pairs())
    }
}

impl VarMap {
    /// The assignments in their order.
    pub closed spec fn pairs(&self) -> Seq<PairV> {
        pairs_view(self.entries@)
    }

    #[verifier::type_invariant]
    closed spec fn sorted(self) -> bool {
        keys_ascending(pairs_view(self.entries@))
    }

    pub fn new() -> (r: VarMap)
        ensures
            r.pairs() == Seq::<PairV>::empty(),
            r@ == Map::<Seq<char>, Seq<char>>::empty(),
    {
        let r = VarMap { entries: Vec::new() };
        assert(r.pairs() =~= Seq::<PairV>::empty());
        r
    }

    pub fn duplicate(&self) -> (r: VarMap)
        ensures
            r.pairs() == self.pairs(),
    {
        let mut entries: Vec<(String, String)> = Vec::new();
        let mut i: usize = 0;
        while i < self.entries.len()
            invariant
                i <= self.entries@.len(),
                entries@.len() == i,
                forall|k: int| 0 <= k < i ==> (#[trigger] entries@[k]).0@ == self.entries@[k].0@
                    && entries@[k].1@ == self.entries@[k].1@,
            decreases self.entries@.len() - i,
        {
            entries.push((self.entries[i].0.clone(), self.entries[i].1.clone()));
            i += 1;
        }
        proof {
            use_type_invariant(self);
            assert(pairs_view(entries@) =~= self.pairs());
        }
        let r = VarMap { entries };
        assert(r.pairs() =~= self.pairs());
        r
    }

    /// The assignments as pairs, in order.
    pub fn to_pairs(&self) -> (r: Vec<(String, String)>)
        ensures
            pairs_view(r@) == self.pairs(),
    {
        let mut out: Vec<(String, String)> = Vec::new();
        let mut i: usize = 0;
        while i < self.entries.len()
            invariant
                i <= self.entries@.len(),
                out@.len() == i,
                forall|k: int| 0 <= k < i ==> (#[trigger] out@[k]).0@ == self.entries@[k].0@
                    && out@[k].1@ == self.entries@[k].1@,
            decreases self.entries@.len() - i,
        {
            out.push((self.entries[i].0.clone(), self.entries[i].1.clone()));
            i += 1;
        }
        assert(pairs_view(out@) =~= self.pairs());
        out
    }

    pub fn len(&self) -> (r: usize)
        ensures
            r == self.pairs().len(),
            keys_ascending(self.pairs()),
    {
        proof {
            use_type_invariant(self);
        }
        self.entries.len()
    }

    pub fn key_at(&self, i: usize) -> (r: &String)
        requires
            i < self.pairs().len(),
        ensures
            r@ == self.pairs()[i as int].0,
    {
        &self.entries[i].0
    }

    pub fn value_at(&self, i: usize) -> (r: &String)
        requires
            i < self.pairs().len(),
        ensures
            r@ == self.pairs()[i as int].1,
    {
        &self.entries[i].1
    }

    fn last_index(&self, k: &str) -> (r: Option<usize>)
        ensures
            r matches Some(i) ==> i < self.pairs().len() && self.pairs()[i as int].0 == k@
                && forall|j: int| i < j < self.pairs().len() ==> self.pairs()[j].0 != k@,
            r is None ==> forall|j: int| 0 <= j < self.pairs().len() ==> self.pairs()[j].0 != k@,
    {
        let mut i = self.entries.len();
        while i > 0
            invariant
                i <= self.pairs().len(),
                self.pairs().len() == self.entries@.len(),
                forall|j: int| i <= j < self.pairs().len() ==> self.pairs()[j].0 != k@,
            decreases i,
        {
            if crate::text::str_eq(self.entries[i - 1].0.as_str(), k) {
                return Some(i - 1);
            }
            i -= 1;
        }
        None
    }

    pub fn get(&self, k: &str) -> (r: Option<&String>)
        ensures
            r matches Some(v) ==> self@.contains_key(k@) && self@[k@] == v@,
            r is None ==> !self@.contains_key(k@),
    {
        match self.last_index(k) {
            Some(i) => {
                proof {
                    lemma_map_of_last(self.pairs(), i as int, k@);
                }
                Some(&self.entries[i].1)
            },
            None => {
                proof {
                    lemma_map_of_absent(self.pairs(), k@);
                }
                None
            },
        }
    }

    pub fn contains_key(&self, k: &str) -> (r: bool)
        ensures
            r == self@.contains_key(k@),
    {
        self.get(k).is_some()
    }

    /// Sets `k`: in place where it is already set, else at the end.
    pub fn insert(&mut self, k: &str, v: &str)
        ensures
            final(self)@ == old(self)@.insert(k@, v@),
            old(self)@.contains_key(k@) ==> final(self).pairs().len() == old(self).pairs().len(),
            final(self).pairs() == assign_pair(old(self).pairs(), k@, v@),
    {
        proof {
            use_type_invariant(&*self);
        }
        let ghost p = self.pairs();
        let mut e: Vec<(String, String)> = Vec::new();
        std::mem::swap(&mut e, &mut self.entries);
        assert(pairs_view(e@) == p);
        match last_index_in(&e, k) {
            Some(i) => {
                proof {
                    lemma_map_of_last(p, i as int, k@);
                    lemma_last_key_index(p, i as int, k@);
                }
                e.set(i, (copy_str(k), copy_str(v)));
                proof {
                    assert(pairs_view(e@) =~= p.update(i as int, (k@, v@)));
                    lemma_map_of_update(p, i as int, k@, v@);
                    assert forall|a: int, b: int| 0 <= a < b < pairs_view(e@).len() implies lex_lt(
                        #[trigger] pairs_view(e@)[a].0,
                        #[trigger] pairs_view(e@)[b].0,
                    ) by {
                        assert(lex_lt(p[a].0, p[b].0));
                    }
                }
            },
            None => {
                proof {
                    lemma_map_of_absent(p, k@);
                    lemma_last_key_index(p, -1, k@);
                }
                let mut pos: usize = 0;
                while pos < e.len() && less_than(e[pos].0.as_str(), k)
                    invariant
                        pairs_view(e@) == p,
                        keys_ascending(p),
                        pos <= p.len(),
                        forall|j: int| 0 <= j < pos ==> lex_lt(#[trigger] p[j].0, k@),
                    decreases p.len() - pos,
                {
                    pos += 1;
                }
                proof {
                    assert forall|j: int| pos <= j < p.len() implies lex_lt(k@, #[trigger] p[j].0) by {
                        lemma_lex_total(k@, p[pos as int].0);
                        if j > pos {
                            assert(lex_lt(p[pos as int].0, p[j].0));
                            lemma_lex_transitive(k@, p[pos as int].0, p[j].0);
                        }
                    }
                    lemma_count_less(p, k@, pos as int);
                }
                e.insert(pos, (copy_str(k), copy_str(v)));
                proof {
                    let q = pairs_view(e@);
                    assert(q =~= p.insert(pos as int, (k@, v@)));
                    lemma_map_of_insert_absent(p, pos as int, k@, v@);
                    assert forall|a: int, b: int| 0 <= a < b < q.len() implies lex_lt(
                        #[trigger] q[a].0,
                        #[trigger] q[b].0,
                    ) by {
                        if b < pos {
                            assert(lex_lt(p[a].0, p[b].0));
                        } else if b == pos {
                            assert(lex_lt(p[a].0, k@));
                        } else if a < pos {
                            assert(lex_lt(p[a].0, p[b - 1].0));
                        } else if a == pos {
                            assert(lex_lt(k@, p[b - 1].0));
                        } else {
                            assert(lex_lt(p[a - 1].0, p[b - 1].0));
                        }
                    }
                }
            },
        }
        self.entries = e;
    }
}

fn last_index_in(e: &Vec<(String, String)>, k: &str) -> (r: Option<usize>)
    ensures
        r matches Some(i) ==> i < pairs_view(e@).len() && pairs_view(e@)[i as int].0 == k@
            && forall|j: int| i < j < pairs_view(e@).len() ==> pairs_view(e@)[j].0 != k@,
        r is None ==> forall|j: int| 0 <= j < pairs_view(e@).len() ==> pairs_view(e@)[j].0 != k@,
{
    let mut i = e.len();
    while i > 0
        invariant
            i <= e@.len(),
            forall|j: int| i <= j < pairs_view(e@).len() ==> pairs_view(e@)[j].0 != k@,
        decreases i,
    {
        if crate::text::str_eq(e[i - 1].0.as_str(), k) {
            return Some(i - 1);
        }
        i -= 1;
    }
    None
}

} // verus!
