//! An ordered table keyed by strings.
//!
//! Keys are unique and kept in insertion order, so every walk over the table
//! is deterministic; the view is the sequence of (key, value) pairs.

use vstd::prelude::*;
use crate::strutil::str_eq;

verus! {

/// Looks a key up in a pair sequence: the value of the first pair whose key
/// matches, if any.
pub open spec fn seq_lookup<V>(s: Seq<(Seq<char>, V)>, k: Seq<char>) -> Option<V>
    decreases s.len(),
{
    if s.len() == 0 {
        None
    } else if s[0].0 == k {
        Some(s[0].1)
    } else {
        seq_lookup(s.drop_first(), k)
    }
}

/// Inserts a pair into a pair sequence: replaces the value of an existing
/// key in place, else appends the pair.
pub open spec fn seq_insert<V>(s: Seq<(Seq<char>, V)>, k: Seq<char>, v: V) -> Seq<(Seq<char>, V)>
    decreases s.len(),
{
    if s.len() == 0 {
        seq![(k, v)]
    } else if s[0].0 == k {
        seq![(k, v)] + s.drop_first()
    } else {
        seq![s[0]] + seq_insert(s.drop_first(), k, v)
    }
}

/// An ordered map from strings to values with unique keys.
#[derive(Debug, PartialEq, Eq)]
pub struct Dict<V> {
    pairs: Vec<(String, V)>,
}

impl<V> Dict<V> {
    /// The sequence of (key characters, value) pairs, in insertion order.
    pub closed spec fn view_seq(&self) -> Seq<(Seq<char>, V)> {
        self.pairs@.map(|i: int, p: (String, V)| (p.0@, p.1))
    }

    /// Keys are pairwise distinct.
    pub open spec fn wf(&self) -> bool {
        forall|i: int, j: int|
            0 <= i < j < self.view_seq().len() ==> self.view_seq()[i].0 != self.view_seq()[j].0
    }

    pub open spec fn spec_len(&self) -> nat {
        self.view_seq().len()
    }

    /// The value stored under a key, if any.
    pub open spec fn spec_get(&self, k: Seq<char>) -> Option<V> {
        seq_lookup(self.view_seq(), k)
    }

    pub open spec fn spec_contains(&self, k: Seq<char>) -> bool {
        self.spec_get(k) is Some
    }

    pub fn new() -> (r: Dict<V>)
        ensures
            r.view_seq() =~= Seq::<(Seq<char>, V)>::empty(),
            r.wf(),
    {
        Dict { pairs: Vec::new() }
    }

    pub fn len(&self) -> (r: usize)
        ensures
            r == self.spec_len(),
    {
        self.pairs.len()
    }

    /// The index of the pair holding a key, if the key is present.
    fn index_of(&self, k: &str) -> (r: Option<usize>)
        ensures
            match r {
                Some(i) => 0 <= i < self.view_seq().len() && self.view_seq()[i as int].0 == k@
                    && forall|j: int| 0 <= j < i ==> self.view_seq()[j].0 != k@,
                None => forall|i: int|
                    0 <= i < self.view_seq().len() ==> self.view_seq()[i].0 != k@,
            },
    {
        let mut i: usize = 0;
        while i < self.pairs.len()
            invariant
                0 <= i <= self.view_seq().len(),
                self.pairs@.len() == self.view_seq().len(),
                forall|j: int| 0 <= j < i ==> self.view_seq()[j].0 != k@,
                forall|j: int|
                    0 <= j < self.view_seq().len() ==> self.view_seq()[j]
                        == (self.pairs@[j].0@, self.pairs@[j].1),
            decreases self.pairs@.len() - i,
        {
            if str_eq(self.pairs[i].0.as_str(), k) {
                return Some(i);
            }
            i = i + 1;
        }
        None
    }

    pub fn contains_key(&self, k: &str) -> (r: bool)
        ensures
            r == self.spec_contains(k@),
    {
        proof {
            lemma_lookup_by_index(self.view_seq(), k@);
        }
        match self.index_of(k) {
            Some(_) => true,
            None => false,
        }
    }

    pub fn get(&self, k: &str) -> (r: Option<&V>)
        ensures
            match r {
                Some(v) => self.spec_get(k@) == Some(*v),
                None => self.spec_get(k@) is None,
            },
    {
        proof {
            lemma_lookup_by_index(self.view_seq(), k@);
        }
        match self.index_of(k) {
            Some(i) => {
                proof {
                    lemma_lookup_first(self.view_seq(), k@, i as int);
                }
                Some(&self.pairs[i].1)
            },
            None => None,
        }
    }

    /// Replaces the value of an existing key in place, else appends the pair:
    /// insertion order of the keys is kept.
    pub fn insert(&mut self, k: String, v: V)
        requires
            old(self).wf(),
        ensures
            final(self).wf(),
            final(self).view_seq() =~= seq_insert(old(self).view_seq(), k@, v),
            final(self).spec_get(k@) == Some(v),
    {
        let ghost kview = k@;
        let ghost vsnap = v;
        let ghost oldseq = self.view_seq();
        match self.index_of(k.as_str()) {
            Some(i) => {
                self.pairs.set(i, (k, v));
                proof {
                    assert(self.view_seq() =~= oldseq.update(i as int, (kview, vsnap)));
                    lemma_insert_at_index(oldseq, kview, vsnap, i as int);
                    lemma_insert_wf(oldseq, kview, vsnap);
                    lemma_insert_lookup(oldseq, kview, vsnap);
                }
            },
            None => {
                self.pairs.push((k, v));
                proof {
                    assert(self.view_seq() =~= oldseq.push((kview, vsnap)));
                    lemma_insert_appends(oldseq, kview, vsnap);
                    lemma_insert_wf(oldseq, kview, vsnap);
                    lemma_insert_lookup(oldseq, kview, vsnap);
                }
            },
        }
    }

    /// The key of the pair at a position, for walking the table in order.
    pub fn key_at(&self, i: usize) -> (r: &String)
        requires
            i < self.spec_len(),
        ensures
            r@ == self.view_seq()[i as int].0,
    {
        &self.pairs[i].0
    }

    /// The value of the pair at a position, for walking the table in order.
    pub fn val_at(&self, i: usize) -> (r: &V)
        requires
            i < self.spec_len(),
        ensures
            *r == self.view_seq()[i as int].1,
    {
        &self.pairs[i].1
    }
}

/// A key is found by `seq_lookup` exactly when some pair holds it.
pub proof fn lemma_lookup_by_index<V>(s: Seq<(Seq<char>, V)>, k: Seq<char>)
    ensures
        (seq_lookup(s, k) is Some) <==> exists|i: int| 0 <= i < s.len() && s[i].0 == k,
    decreases s.len(),
{
    if s.len() > 0 {
        lemma_lookup_by_index(s.drop_first(), k);
        if s[0].0 == k {
        } else {
            if exists|i: int| 0 <= i < s.len() && s[i].0 == k {
                let i = choose|i: int| 0 <= i < s.len() && s[i].0 == k;
                assert(s.drop_first()[i - 1].0 == k);
            }
            if exists|i: int| 0 <= i < s.drop_first().len() && s.drop_first()[i].0 == k {
                let i = choose|i: int| 0 <= i < s.drop_first().len() && s.drop_first()[i].0 == k;
                assert(s[i + 1].0 == k);
            }
        }
    }
}

/// The value found for a key is the value of the first pair that holds it.
pub proof fn lemma_lookup_first<V>(s: Seq<(Seq<char>, V)>, k: Seq<char>, i: int)
    requires
        0 <= i < s.len(),
        s[i].0 == k,
        forall|j: int| 0 <= j < i ==> s[j].0 != k,
    ensures
        seq_lookup(s, k) == Some(s[i].1),
    decreases s.len(),
{
    if i == 0 {
    } else {
        assert(s[0].0 != k);
        assert(s.drop_first()[i - 1] == s[i]);
        assert(forall|j: int| 0 <= j < i - 1 ==> s.drop_first()[j] == s[j + 1]);
        lemma_lookup_first(s.drop_first(), k, i - 1);
    }
}

proof fn lemma_insert_at_index<V>(s: Seq<(Seq<char>, V)>, k: Seq<char>, v: V, i: int)
    requires
        forall|a: int, b: int| 0 <= a < b < s.len() ==> s[a].0 != s[b].0,
        0 <= i < s.len(),
        s[i].0 == k,
    ensures
        seq_insert(s, k, v) =~= s.update(i, (k, v)),
    decreases s.len(),
{
    if i == 0 {
    } else {
        assert(s[0].0 != k);
        assert(s.drop_first()[i - 1] == s[i]);
        lemma_insert_at_index(s.drop_first(), k, v, i - 1);
        assert(seq_insert(s, k, v) =~= seq![s[0]] + seq_insert(s.drop_first(), k, v));
        assert(s.update(i, (k, v)) =~= seq![s[0]] + s.drop_first().update(i - 1, (k, v)));
    }
}

/// Inserting an absent key appends the pair.
pub proof fn lemma_insert_appends<V>(s: Seq<(Seq<char>, V)>, k: Seq<char>, v: V)
    requires
        forall|i: int| 0 <= i < s.len() ==> s[i].0 != k,
    ensures
        seq_insert(s, k, v) =~= s.push((k, v)),
    decreases s.len(),
{
    if s.len() > 0 {
        lemma_insert_appends(s.drop_first(), k, v);
        assert(seq_insert(s, k, v) =~= seq![s[0]] + seq_insert(s.drop_first(), k, v));
        assert(s.push((k, v)) =~= seq![s[0]] + s.drop_first().push((k, v)));
    }
}

/// Insertion keeps the keys pairwise distinct.
pub proof fn lemma_insert_wf<V>(s: Seq<(Seq<char>, V)>, k: Seq<char>, v: V)
    requires
        forall|a: int, b: int| 0 <= a < b < s.len() ==> s[a].0 != s[b].0,
    ensures
        forall|a: int, b: int|
            0 <= a < b < seq_insert(s, k, v).len() ==> seq_insert(s, k, v)[a].0 != seq_insert(
                s,
                k,
                v,
            )[b].0,
    decreases s.len(),
{
    lemma_lookup_by_index(s, k);
    if seq_lookup(s, k) is Some {
        let i = choose|i: int| 0 <= i < s.len() && s[i].0 == k;
        lemma_insert_at_index(s, k, v, i);
    } else {
        lemma_insert_appends(s, k, v);
    }
}

/// After insertion, the inserted key maps to the new value.
pub proof fn lemma_insert_lookup<V>(s: Seq<(Seq<char>, V)>, k: Seq<char>, v: V)
    ensures
        seq_lookup(seq_insert(s, k, v), k) == Some(v),
    decreases s.len(),
{
    if s.len() == 0 {
    } else if s[0].0 == k {
    } else {
        lemma_insert_lookup(s.drop_first(), k, v);
        assert(seq_insert(s, k, v)[0] == s[0]);
        assert(seq_insert(s, k, v).drop_first() =~= seq_insert(s.drop_first(), k, v));
    }
}

/// Insertion does not touch the value of any other key.
pub proof fn lemma_insert_other<V>(s: Seq<(Seq<char>, V)>, k: Seq<char>, v: V, k2: Seq<char>)
    requires
        k2 != k,
    ensures
        seq_lookup(seq_insert(s, k, v), k2) == seq_lookup(s, k2),
    decreases s.len(),
{
    let t = seq_insert(s, k, v);
    if s.len() == 0 {
        assert(t =~= seq![(k, v)]);
        assert(t[0].0 != k2);
        assert(seq_lookup(t, k2) == seq_lookup(t.drop_first(), k2));
        assert(t.drop_first() =~= Seq::<(Seq<char>, V)>::empty());
    } else if s[0].0 == k {
        assert(t[0] == (k, v));
        assert(t.len() > 0);
        assert(t.drop_first() =~= s.drop_first());
        assert(seq_lookup(t, k2) == seq_lookup(t.drop_first(), k2));
        assert(seq_lookup(s, k2) == seq_lookup(s.drop_first(), k2));
    } else {
        lemma_insert_other(s.drop_first(), k, v, k2);
        assert(t[0] == s[0]);
        assert(t.len() > 0);
        assert(t.drop_first() =~= seq_insert(s.drop_first(), k, v));
        if s[0].0 == k2 {
            assert(seq_lookup(t, k2) == Some(t[0].1));
            assert(seq_lookup(s, k2) == Some(s[0].1));
        } else {
            assert(seq_lookup(t, k2) == seq_lookup(t.drop_first(), k2));
            assert(seq_lookup(s, k2) == seq_lookup(s.drop_first(), k2));
        }
    }
}

/// Looking a key up in a value-mapped table finds the mapped value.
pub proof fn lemma_lookup_mapped<V, W>(s: Seq<(Seq<char>, V)>, f: spec_fn(V) -> W, k: Seq<char>)
    ensures
        seq_lookup(s.map(|i: int, p: (Seq<char>, V)| (p.0, f(p.1))), k) == match seq_lookup(s, k) {
            Some(v) => Some(f(v)),
            None => None::<W>,
        },
    decreases s.len(),
{
    let t = s.map(|i: int, p: (Seq<char>, V)| (p.0, f(p.1)));
    if s.len() == 0 {
    } else {
        lemma_lookup_mapped(s.drop_first(), f, k);
        assert(t[0] == (s[0].0, f(s[0].1)));
        assert(t.drop_first() =~= s.drop_first().map(|i: int, p: (Seq<char>, V)| (p.0, f(p.1))));
        if s[0].0 == k {
        } else {
            assert(seq_lookup(t, k) == seq_lookup(t.drop_first(), k));
        }
    }
}

/// Mapping the values of a table commutes with insertion.
pub proof fn lemma_insert_mapped<V, W>(s: Seq<(Seq<char>, V)>, f: spec_fn(V) -> W, k: Seq<char>, v: V)
    ensures
        seq_insert(s, k, v).map(|i: int, p: (Seq<char>, V)| (p.0, f(p.1))) =~= seq_insert(
            s.map(|i: int, p: (Seq<char>, V)| (p.0, f(p.1))),
            k,
            f(v),
        ),
    decreases s.len(),
{
    let g = |i: int, p: (Seq<char>, V)| (p.0, f(p.1));
    if s.len() == 0 {
        assert(seq_insert(s, k, v) =~= seq![(k, v)]);
        assert(s.map(g) =~= Seq::<(Seq<char>, W)>::empty());
    } else {
        assert(s.map(g)[0] == (s[0].0, f(s[0].1)));
        assert(s.map(g).drop_first() =~= s.drop_first().map(g));
        if s[0].0 == k {
            assert(seq_insert(s, k, v) =~= seq![(k, v)] + s.drop_first());
            assert(seq_insert(s.map(g), k, f(v)) =~= seq![(k, f(v))] + s.drop_first().map(g));
        } else {
            lemma_insert_mapped(s.drop_first(), f, k, v);
            assert(seq_insert(s, k, v) =~= seq![s[0]] + seq_insert(s.drop_first(), k, v));
            assert(seq_insert(s.map(g), k, f(v)) =~= seq![(s[0].0, f(s[0].1))] + seq_insert(
                s.drop_first().map(g),
                k,
                f(v),
            ));
        }
    }
}

} // verus!
