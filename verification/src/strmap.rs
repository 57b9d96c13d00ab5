//! A string-to-string mapping with unique keys, kept as a vector of pairs.
//! Insertion is last-write-wins: inserting an existing key replaces its
//! value in place; a new key is appended.

use vstd::prelude::*;

verus! {

/// The value bound to `k` in the association sequence `m`, if any.
pub open spec fn assoc_get(m: Seq<(Seq<char>, Seq<char>)>, k: Seq<char>) -> Option<Seq<char>>
    decreases m.len(),
{
    if m.len() == 0 {
        None
    } else if m[0].0 == k {
        Some(m[0].1)
    } else {
        assoc_get(m.drop_first(), k)
    }
}

/// Whether `k` is bound in `m`.
pub open spec fn assoc_has(m: Seq<(Seq<char>, Seq<char>)>, k: Seq<char>) -> bool {
    assoc_get(m, k) is Some
}

/// `m` with `k` bound to `v`: replaces the binding of `k` in place if one
/// exists, otherwise appends the pair.
pub open spec fn assoc_insert(
    m: Seq<(Seq<char>, Seq<char>)>,
    k: Seq<char>,
    v: Seq<char>,
) -> Seq<(Seq<char>, Seq<char>)>
    decreases m.len(),
{
    if m.len() == 0 {
        seq![(k, v)]
    } else if m[0].0 == k {
        seq![(k, v)] + m.drop_first()
    } else {
        seq![m[0]] + assoc_insert(m.drop_first(), k, v)
    }
}

/// No key occurs twice.
pub open spec fn assoc_unique(m: Seq<(Seq<char>, Seq<char>)>) -> bool {
    forall|i: int, j: int| 0 <= i < j < m.len() ==> m[i].0 != m[j].0
}

/// Looking up the key just inserted finds the new value.
pub proof fn lemma_assoc_insert_get(m: Seq<(Seq<char>, Seq<char>)>, k: Seq<char>, v: Seq<char>)
    ensures
        assoc_get(assoc_insert(m, k, v), k) == Some(v),
    decreases m.len(),
{
    if m.len() == 0 {
    } else if m[0].0 == k {
        assert(assoc_insert(m, k, v)[0] == (k, v));
    } else {
        lemma_assoc_insert_get(m.drop_first(), k, v);
        assert(assoc_insert(m, k, v).drop_first() =~= assoc_insert(m.drop_first(), k, v));
    }
}

/// Inserting one key leaves every other key's binding unchanged.
pub proof fn lemma_assoc_insert_other(
    m: Seq<(Seq<char>, Seq<char>)>,
    k: Seq<char>,
    v: Seq<char>,
    k2: Seq<char>,
)
    requires
        k2 != k,
    ensures
        assoc_get(assoc_insert(m, k, v), k2) == assoc_get(m, k2),
    decreases m.len(),
{
    let ins = assoc_insert(m, k, v);
    if m.len() == 0 {
        assert(ins[0] == (k, v));
        assert(ins.drop_first() =~= Seq::<(Seq<char>, Seq<char>)>::empty());
        assert(assoc_get(ins, k2) == assoc_get(ins.drop_first(), k2));
    } else if m[0].0 == k {
        assert(ins[0] == (k, v));
        assert(ins.drop_first() =~= m.drop_first());
        assert(assoc_get(ins, k2) == assoc_get(m.drop_first(), k2));
        assert(assoc_get(m, k2) == assoc_get(m.drop_first(), k2));
    } else {
        lemma_assoc_insert_other(m.drop_first(), k, v, k2);
        assert(ins[0] == m[0]);
        assert(ins.drop_first() =~= assoc_insert(m.drop_first(), k, v));
        assert(assoc_get(ins, k2) == if m[0].0 == k2 {
            Some(m[0].1)
        } else {
            assoc_get(assoc_insert(m.drop_first(), k, v), k2)
        });
    }
}

/// A string-keyed map with string values.
#[derive(Debug, Clone)]
pub struct StrMap {
    pairs: Vec<(String, String)>,
}

impl View for StrMap {
    type V = Seq<(Seq<char>, Seq<char>)>;

    closed spec fn view(&self) -> Seq<(Seq<char>, Seq<char>)> {
        self.pairs@.map_values(|p: (String, String)| (p.0@, p.1@))
    }
}

impl StrMap {
    /// All keys of the map are distinct.
    pub open spec fn wf(&self) -> bool {
        assoc_unique(self@)
    }

    /// An empty map.
    pub fn new() -> (r: StrMap)
        ensures
            r@ == Seq::<(Seq<char>, Seq<char>)>::empty(),
            r.wf(),
    {
        let r = StrMap { pairs: Vec::new() };
        proof {
            assert(r@ =~= Seq::<(Seq<char>, Seq<char>)>::empty());
        }
        r
    }

    /// Number of bindings.
    pub fn len(&self) -> (r: usize)
        ensures
            r == self@.len(),
    {
        self.pairs.len()
    }

    /// The pair at position `i`, for walking the map's contents.
    pub fn pair_at(&self, i: usize) -> (r: (&String, &String))
        requires
            i < self@.len(),
        ensures
            r.0@ == self@[i as int].0,
            r.1@ == self@[i as int].1,
    {
        (&self.pairs[i].0, &self.pairs[i].1)
    }

    /// Binds `k` to `v`, replacing any previous binding of `k`.
    pub fn insert(&mut self, k: String, v: String)
        requires
            old(self).wf(),
        ensures
            final(self).wf(),
            final(self)@ == assoc_insert(old(self)@, k@, v@),
    {
        let ghost m0 = self@;
        let n = self.pairs.len();
        let mut i: usize = 0;
        while i < n
            invariant
                i <= n,
                n == self@.len(),
                self@ == m0,
                m0 == old(self)@,
                self.wf(),
                forall|j: int| 0 <= j < i ==> self@[j].0 != k@,
            decreases n - i,
        {
            proof {
                assert(self@[i as int].0 == self.pairs@[i as int].0@);
            }
            if self.pairs[i].0 == k {
                let ghost p0 = self.pairs@;
                let ghost kv = (k@, v@);
                self.pairs[i] = (k, v);
                proof {
                    lemma_insert_found(m0, kv.0, kv.1, i as int);
                    assert(self.pairs@ == p0.update(i as int, (k, v)));
                    assert forall|j: int| 0 <= j < self@.len() implies self@[j] == m0.update(
                        i as int,
                        kv,
                    )[j] by {
                        assert(self@[j] == (self.pairs@[j].0@, self.pairs@[j].1@));
                        if j != i {
                            assert(self.pairs@[j] == p0[j]);
                            assert(m0[j] == (p0[j].0@, p0[j].1@));
                        }
                    }
                    assert(self@ =~= m0.update(i as int, kv));
                    assert(kv.0 == k@ && kv.1 == v@);
                    assert(m0 == old(self)@);
                    assert(self@ == assoc_insert(old(self)@, k@, v@));
                    assert forall|a: int, b: int|
                        0 <= a < b < self@.len() implies self@[a].0 != self@[b].0 by {
                        assert(m0[a].0 != m0[b].0);
                    }
                }
                return ;
            }
            i += 1;
        }
        self.pairs.push((k, v));
        proof {
            lemma_insert_missing(m0, k@, v@);
            assert(self@ =~= m0.push((k@, v@)));
            lemma_get_none_of_no_match(m0, k@);
            assert forall|a: int, b: int|
                0 <= a < b < self@.len() implies self@[a].0 != self@[b].0 by {
                if b < m0.len() {
                    assert(m0[a].0 != m0[b].0);
                } else {
                    assert(self@[a].0 != k@);
                }
            }
        }
    }

    /// The value bound to `k`, if any.
    pub fn get(&self, k: &str) -> (r: Option<&String>)
        ensures
            match r {
                Some(v) => assoc_get(self@, k@) == Some(v@),
                None => assoc_get(self@, k@) is None,
            },
    {
        let n = self.pairs.len();
        let mut i: usize = 0;
        while i < n
            invariant
                i <= n,
                n == self@.len(),
                forall|j: int| 0 <= j < i ==> self@[j].0 != k@,
            decreases n - i,
        {
            proof {
                assert(self@[i as int].0 == self.pairs@[i as int].0@);
                assert(self@[i as int].1 == self.pairs@[i as int].1@);
            }
            if crate::text::str_eq(self.pairs[i].0.as_str(), k) {
                proof {
                    lemma_get_at_first_match(self@, k@, i as int);
                }
                return Some(&self.pairs[i].1);
            }
            i += 1;
        }
        proof {
            lemma_get_none_of_no_match(self@, k@);
        }
        None
    }

    /// Whether `k` is bound.
    pub fn contains_key(&self, k: &str) -> (r: bool)
        ensures
            r == assoc_has(self@, k@),
    {
        match self.get(k) {
            Some(_) => true,
            None => false,
        }
    }

    /// A copy of the map.
    pub fn duplicate(&self) -> (r: StrMap)
        ensures
            r@ == self@,
            self.wf() ==> r.wf(),
    {
        let n = self.pairs.len();
        let mut out: Vec<(String, String)> = Vec::new();
        let mut i: usize = 0;
        while i < n
            invariant
                i <= n,
                n == self@.len(),
                out@.len() == i,
                out@.map_values(|p: (String, String)| (p.0@, p.1@)) =~= self@.take(i as int),
            decreases n - i,
        {
            let kv = (self.pairs[i].0.clone(), self.pairs[i].1.clone());
            proof {
                assert(self@[i as int] == (self.pairs@[i as int].0@, self.pairs@[i as int].1@));
                assert(kv.0@ == self@[i as int].0 && kv.1@ == self@[i as int].1);
            }
            let ghost out0 = out@;
            out.push(kv);
            proof {
                let mapped = out@.map_values(|p: (String, String)| (p.0@, p.1@));
                let mapped0 = out0.map_values(|p: (String, String)| (p.0@, p.1@));
                assert forall|j: int| 0 <= j < i + 1 implies mapped[j] == self@.take(i + 1)[j] by {
                    if j < i {
                        assert(out@[j] == out0[j]);
                        assert(mapped0[j] == self@.take(i as int)[j]);
                    } else {
                        assert(out@[j] == kv);
                    }
                }
                assert(mapped =~= self@.take(i + 1));
            }
            i += 1;
        }
        let r = StrMap { pairs: out };
        proof {
            assert(self@.take(n as int) =~= self@);
            assert(r@ =~= self@);
        }
        r
    }
}

/// At the first match index, updating in place is what `assoc_insert` does.
#[verifier::rlimit(50)]
proof fn lemma_insert_found(m: Seq<(Seq<char>, Seq<char>)>, k: Seq<char>, v: Seq<char>, i: int)
    requires
        0 <= i < m.len(),
        m[i].0 == k,
        forall|j: int| 0 <= j < i ==> m[j].0 != k,
    ensures
        assoc_insert(m, k, v) == m.update(i, (k, v)),
    decreases m.len(),
{
    if i == 0 {
        assert(assoc_insert(m, k, v) =~= m.update(0, (k, v)));
    } else {
        assert(forall|j: int| 0 <= j < i - 1 ==> m.drop_first()[j].0 != k);
        assert(m.drop_first()[i - 1].0 == k);
        lemma_insert_found(m.drop_first(), k, v, i - 1);
        assert(assoc_insert(m, k, v) =~= seq![m[0]] + m.drop_first().update(i - 1, (k, v)));
        assert(seq![m[0]] + m.drop_first().update(i - 1, (k, v)) =~= m.update(i, (k, v)));
    }
}

/// With no match anywhere, insertion appends.
proof fn lemma_insert_missing(m: Seq<(Seq<char>, Seq<char>)>, k: Seq<char>, v: Seq<char>)
    requires
        forall|j: int| 0 <= j < m.len() ==> m[j].0 != k,
    ensures
        assoc_insert(m, k, v) == m.push((k, v)),
    decreases m.len(),
{
    if m.len() == 0 {
        assert(assoc_insert(m, k, v) =~= m.push((k, v)));
    } else {
        assert(forall|j: int| 0 <= j < m.drop_first().len() ==> m.drop_first()[j].0 != k);
        lemma_insert_missing(m.drop_first(), k, v);
        assert(assoc_insert(m, k, v) =~= m.push((k, v)));
    }
}

/// Lookup at the first index whose key matches.
proof fn lemma_get_at_first_match(m: Seq<(Seq<char>, Seq<char>)>, k: Seq<char>, i: int)
    requires
        0 <= i < m.len(),
        m[i].0 == k,
        forall|j: int| 0 <= j < i ==> m[j].0 != k,
    ensures
        assoc_get(m, k) == Some(m[i].1),
    decreases m.len(),
{
    if i > 0 {
        assert(forall|j: int| 0 <= j < i - 1 ==> m.drop_first()[j].0 != k);
        assert(m.drop_first()[i - 1].0 == k);
        lemma_get_at_first_match(m.drop_first(), k, i - 1);
    }
}

/// Lookup fails when no key matches.
pub proof fn lemma_get_none_of_no_match(m: Seq<(Seq<char>, Seq<char>)>, k: Seq<char>)
    requires
        forall|j: int| 0 <= j < m.len() ==> m[j].0 != k,
    ensures
        assoc_get(m, k) is None,
    decreases m.len(),
{
    if m.len() > 0 {
        assert(forall|j: int| 0 <= j < m.drop_first().len() ==> m.drop_first()[j].0 != k);
        lemma_get_none_of_no_match(m.drop_first(), k);
    }
}

} // verus!
