//! A table from names to values, in the order the names were first bound.
//!
//! Binding a name that is already present replaces its value in place, so
//! every name occurs at most once and the table reads as a finite map.
use vstd::prelude::*;

verus! {

/// The map that a sequence of bindings denotes: a later binding of a name
/// replaces an earlier one.
pub open spec fn bindings_map<V>(s: Seq<(String, V)>) -> Map<Seq<char>, V>
    decreases s.len(),
{
    if s.len() == 0 {
        Map::empty()
    } else {
        bindings_map(s.drop_last()).insert(s.last().0@, s.last().1)
    }
}

/// No name is bound twice.
pub open spec fn names_distinct<V>(s: Seq<(String, V)>) -> bool {
    forall|i: int, j: int|
        0 <= i < s.len() && 0 <= j < s.len() && i != j ==> #[trigger] s[i].0@ != #[trigger] s[j].0@
}

/// Where names are distinct, the map gives each name the value it is bound to.
pub proof fn lemma_bindings_map<V>(s: Seq<(String, V)>)
    requires
        names_distinct(s),
    ensures
        forall|i: int| 0 <= i < s.len() ==> #[trigger] bindings_map(s).contains_key(s[i].0@)
            && bindings_map(s)[s[i].0@] == s[i].1,
        forall|k: Seq<char>|
            #[trigger] bindings_map(s).contains_key(k) <==> exists|i: int|
                0 <= i < s.len() && s[i].0@ == k,
    decreases s.len(),
{
    if s.len() > 0 {
        let p = s.drop_last();
        assert forall|i: int, j: int|
            0 <= i < p.len() && 0 <= j < p.len() && i != j implies #[trigger] p[i].0@
            != #[trigger] p[j].0@ by {
            assert(p[i] == s[i] && p[j] == s[j]);
        }
        lemma_bindings_map(p);
        assert forall|k: Seq<char>| #[trigger]
            bindings_map(s).contains_key(k) implies exists|i: int|
            0 <= i < s.len() && s[i].0@ == k by {
            if k != s.last().0@ {
                assert(bindings_map(p).contains_key(k));
                let i = choose|i: int| 0 <= i < p.len() && p[i].0@ == k;
                assert(s[i] == p[i]);
            } else {
                assert(s[s.len() - 1].0@ == k);
            }
        }
        assert forall|i: int| 0 <= i < s.len() implies #[trigger] bindings_map(s).contains_key(
            s[i].0@,
        ) && bindings_map(s)[s[i].0@] == s[i].1 by {
            let last = s.len() - 1;
            assert(bindings_map(s) == bindings_map(p).insert(s[last].0@, s[last].1));
            if i < last {
                assert(s[i] == p[i]);
                assert(s[i].0@ != s[last].0@);
                assert(bindings_map(p).contains_key(p[i].0@));
            }
        }
    }
}

/// Two sequences of bindings with the same names in the same places, whose
/// values agree under `f` and `g`, bind the same names to agreeing values.
pub proof fn lemma_bindings_map_agree<V, W, M>(
    s1: Seq<(String, V)>,
    s2: Seq<(String, W)>,
    f: spec_fn(V) -> M,
    g: spec_fn(W) -> M,
)
    requires
        s1.len() == s2.len(),
        forall|i: int| #![trigger s1[i]] 0 <= i < s1.len() ==> s1[i].0@ == s2[i].0@ && f(s1[i].1) == g(
            s2[i].1,
        ),
    ensures
        forall|k: Seq<char>| #[trigger] bindings_map(s1).contains_key(k) <==> bindings_map(s2).contains_key(k),
        forall|k: Seq<char>| #[trigger] bindings_map(s1).contains_key(k) ==> f(bindings_map(s1)[k]) == g(
            bindings_map(s2)[k],
        ),
        names_distinct(s1) ==> names_distinct(s2),
    decreases s1.len(),
{
    if s1.len() > 0 {
        let p1 = s1.drop_last();
        let p2 = s2.drop_last();
        assert forall|i: int| #![trigger p1[i]] 0 <= i < p1.len() implies p1[i].0@ == p2[i].0@ && f(p1[i].1) == g(
            p2[i].1,
        ) by {
            assert(p1[i] == s1[i] && p2[i] == s2[i]);
        }
        lemma_bindings_map_agree(p1, p2, f, g);
        let last = s1.len() - 1;
        assert(s1[last].0@ == s2[last].0@ && f(s1[last].1) == g(s2[last].1));
        assert(bindings_map(s1) == bindings_map(p1).insert(s1.last().0@, s1.last().1));
        assert(bindings_map(s2) == bindings_map(p2).insert(s2.last().0@, s2.last().1));
        assert forall|k: Seq<char>| #[trigger] bindings_map(s1).contains_key(k) <==> bindings_map(
            s2,
        ).contains_key(k) by {
            assert(bindings_map(p1).contains_key(k) <==> bindings_map(p2).contains_key(k));
        }
        assert forall|k: Seq<char>| #[trigger] bindings_map(s1).contains_key(k) implies f(
            bindings_map(s1)[k],
        ) == g(bindings_map(s2)[k]) by {
            if k != s1.last().0@ {
                assert(bindings_map(p1).contains_key(k));
            }
        }
    }
    if names_distinct(s1) {
        assert forall|a: int, b: int|
            0 <= a < s2.len() && 0 <= b < s2.len() && a != b implies #[trigger] s2[a].0@
            != #[trigger] s2[b].0@ by {
            assert(s1[a].0@ == s2[a].0@ && s1[b].0@ == s2[b].0@);
        }
    }
}

/// A table of name bindings; `entries` holds each name at most once.
#[derive(Debug)]
pub struct NameTable<V> {
    pub entries: Vec<(String, V)>,
}

impl<V> NameTable<V> {
    /// Well-formed: no name is bound twice.
    pub open spec fn wf(&self) -> bool {
        names_distinct(self.entries@)
    }

    /// The finite map that the table stands for.
    pub open spec fn map(&self) -> Map<Seq<char>, V> {
        bindings_map(self.entries@)
    }

    /// An empty table.
    pub fn new() -> (t: Self)
        ensures
            t.wf(),
            t.map() == Map::<Seq<char>, V>::empty(),
            t.entries@.len() == 0,
    {
        NameTable { entries: Vec::new() }
    }

    /// The position of `k` in the table, if it is bound.
    pub fn position(&self, k: &str) -> (r: Option<usize>)
        requires
            self.wf(),
        ensures
            r matches Some(i) ==> i < self.entries@.len() && self.entries@[i as int].0@ == k@,
            r is None <==> !self.map().contains_key(k@),
    {
        proof {
            lemma_bindings_map(self.entries@);
        }
        let mut i: usize = 0;
        while i < self.entries.len()
            invariant
                self.wf(),
                i <= self.entries@.len(),
                forall|j: int| 0 <= j < i ==> #[trigger] self.entries@[j].0@ != k@,
            decreases self.entries@.len() - i,
        {
            if crate::text::str_equal(self.entries[i].0.as_str(), k) {
                proof {
                    lemma_bindings_map(self.entries@);
                }
                return Some(i);
            }
            i = i + 1;
        }
        None
    }

    /// The value bound to `k`, if any.
    pub fn get(&self, k: &str) -> (r: Option<&V>)
        requires
            self.wf(),
        ensures
            r is Some <==> self.map().contains_key(k@),
            r matches Some(v) ==> *v == self.map()[k@],
    {
        proof {
            lemma_bindings_map(self.entries@);
        }
        match self.position(k) {
            Some(i) => Some(&self.entries[i].1),
            None => None,
        }
    }

    /// Binds `k` to `v`, replacing any earlier value of `k`.
    pub fn insert(&mut self, k: String, v: V)
        requires
            old(self).wf(),
        ensures
            final(self).wf(),
            final(self).map() == old(self).map().insert(k@, v),
    {
        proof {
            lemma_bindings_map(self.entries@);
        }
        match self.position(k.as_str()) {
            Some(i) => {
                let ghost before = self.entries@;
                self.entries.set(i, (k, v));
                proof {
                    let after = self.entries@;
                    assert(names_distinct(after)) by {
                        assert forall|a: int, b: int|
                            0 <= a < after.len() && 0 <= b < after.len() && a != b implies #[trigger] after[a].0@
                            != #[trigger] after[b].0@ by {
                            assert(before[a].0@ != before[b].0@);
                        }
                    }
                    lemma_bindings_map(after);
                    assert(self.map() =~= old(self).map().insert(k@, v)) by {
                        assert forall|key: Seq<char>| #[trigger] self.map().contains_key(key)
                            <==> old(self).map().insert(k@, v).contains_key(key) by {
                            if self.map().contains_key(key) {
                                let j = choose|j: int| 0 <= j < after.len() && after[j].0@ == key;
                                if j != i {
                                    assert(before[j] == after[j]);
                                }
                            }
                            if old(self).map().contains_key(key) {
                                let j = choose|j: int| 0 <= j < before.len() && before[j].0@ == key;
                                if j != i {
                                    assert(before[j] == after[j]);
                                } else {
                                    assert(after[j].0@ == key);
                                }
                            }
                        }
                        assert forall|key: Seq<char>| #[trigger] self.map().contains_key(key)
                            implies self.map()[key] == old(self).map().insert(k@, v)[key] by {
                            let j = choose|j: int| 0 <= j < after.len() && after[j].0@ == key;
                            if j != i {
                                assert(before[j] == after[j]);
                            }
                        }
                    }
                }
            },
            None => {
                let ghost before = self.entries@;
                let ghost kv = k@;
                self.entries.push((k, v));
                proof {
                    let after = self.entries@;
                    assert(after.drop_last() =~= before);
                    assert(names_distinct(after)) by {
                        assert forall|a: int, b: int|
                            0 <= a < after.len() && 0 <= b < after.len() && a != b implies #[trigger] after[a].0@
                            != #[trigger] after[b].0@ by {
                            if a < before.len() && b < before.len() {
                                assert(before[a] == after[a] && before[b] == after[b]);
                            } else if a < before.len() {
                                assert(before[a] == after[a]);
                                assert(bindings_map(before).contains_key(before[a].0@));
                            } else {
                                assert(before[b] == after[b]);
                                assert(bindings_map(before).contains_key(before[b].0@));
                            }
                        }
                    }
                }
            },
        }
    }
}

} // verus!
