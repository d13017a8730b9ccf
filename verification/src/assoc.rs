//! Insertion-ordered association maps.
//!
//! The engine keeps every keyed collection as an association list,
//! viewed in specifications as a sequence of key/value pairs, so that
//! both lookup and the order of entries are exact.  Lookup always
//! finds the first entry with the key; the maps never create a second
//! one, so well-formed maps have distinct keys.

use vstd::prelude::*;

verus! {

/// Index of the first pair in `s` whose key is `k`, or `-1` if no pair
/// has that key.
pub open spec fn assoc_index<K, V>(s: Seq<(K, V)>, k: K) -> int
    decreases s.len(),
{
    if s.len() == 0 {
        -1
    } else if s[0].0 == k {
        0
    } else {
        let r = assoc_index(s.drop_first(), k);
        if r < 0 {
            -1
        } else {
            r + 1
        }
    }
}

pub open spec fn assoc_has<K, V>(s: Seq<(K, V)>, k: K) -> bool {
    assoc_index(s, k) >= 0
}

/// The value paired with key `k`, if any.
pub open spec fn assoc_get<K, V>(s: Seq<(K, V)>, k: K) -> Option<V> {
    if assoc_has(s, k) {
        Some(s[assoc_index(s, k)].1)
    } else {
        None
    }
}

/// All keys of `s` are distinct.
pub open spec fn assoc_unique<K, V>(s: Seq<(K, V)>) -> bool {
    forall|i: int, j: int| 0 <= i < j < s.len() ==> s[i].0 != s[j].0
}

/// The association list after binding `k` to `v`: an existing entry is
/// replaced in place, a new one is appended at the end.
pub open spec fn assoc_put<K, V>(s: Seq<(K, V)>, k: K, v: V) -> Seq<(K, V)> {
    if assoc_has(s, k) {
        s.update(assoc_index(s, k), (k, v))
    } else {
        s.push((k, v))
    }
}

/// `assoc_index` returns either `-1` and then no pair has the key, or
/// the position of the first pair that has it.
pub proof fn lemma_assoc_index<K, V>(s: Seq<(K, V)>, k: K)
    ensures
        assoc_index(s, k) >= 0 ==> {
            &&& assoc_index(s, k) < s.len()
            &&& s[assoc_index(s, k)].0 == k
            &&& forall|j: int| 0 <= j < assoc_index(s, k) ==> s[j].0 != k
        },
        assoc_index(s, k) < 0 ==> (forall|j: int| 0 <= j < s.len() ==> s[j].0 != k),
    decreases s.len(),
{
    if s.len() > 0 && s[0].0 != k {
        lemma_assoc_index(s.drop_first(), k);
        assert forall|j: int| 0 <= j < s.len() && assoc_index(s.drop_first(), k) < 0 implies s[j].0
            != k by {
            if j > 0 {
                assert(s.drop_first()[j - 1] == s[j]);
            }
        }
        if assoc_index(s.drop_first(), k) >= 0 {
            assert forall|j: int| 0 <= j < assoc_index(s, k) implies s[j].0 != k by {
                if j > 0 {
                    assert(s.drop_first()[j - 1] == s[j]);
                }
            }
        }
    }
}

/// A pair found at position `i`, before which the key does not occur,
/// is the pair that `assoc_index` names.
pub proof fn lemma_assoc_index_at<K, V>(s: Seq<(K, V)>, k: K, i: int)
    requires
        0 <= i < s.len(),
        s[i].0 == k,
        forall|j: int| 0 <= j < i ==> s[j].0 != k,
    ensures
        assoc_index(s, k) == i,
    decreases s.len(),
{
    if i > 0 {
        assert forall|j: int| 0 <= j < i - 1 implies s.drop_first()[j].0 != k by {
            assert(s.drop_first()[j] == s[j + 1]);
        }
        assert(s.drop_first()[i - 1] == s[i]);
        lemma_assoc_index_at(s.drop_first(), k, i - 1);
    }
}

/// Appending a pair changes which keys exist in the obvious way: the
/// appended key is present, and every other key is present exactly
/// when it was before.
pub proof fn lemma_assoc_has_push<K, V>(s: Seq<(K, V)>, x: (K, V), k: K)
    ensures
        assoc_has(s.push(x), k) == (assoc_has(s, k) || x.0 == k),
{
    let t = s.push(x);
    lemma_assoc_index(s, k);
    lemma_assoc_index(t, k);
    if assoc_has(s, k) {
        let j = assoc_index(s, k);
        assert(t[j] == s[j]);
        assert forall|m: int| 0 <= m < j implies t[m].0 != k by {
            assert(t[m] == s[m]);
        }
        lemma_assoc_index_at(t, k, j);
    } else if x.0 == k {
        assert(t[s.len() as int] == x);
        assert forall|m: int| 0 <= m < s.len() implies t[m].0 != k by {
            assert(t[m] == s[m]);
        }
        lemma_assoc_index_at(t, k, s.len() as int);
    } else {
        if assoc_has(t, k) {
            let j = assoc_index(t, k);
            assert(t[j].0 == k);
            if j < s.len() {
                assert(t[j] == s[j]);
            } else {
                assert(t[j] == x);
            }
        }
    }
}

/// `assoc_put` binds `k` to `v`, leaves every other key alone, and
/// keeps the keys distinct.
pub proof fn lemma_assoc_put<K, V>(s: Seq<(K, V)>, k: K, v: V, k2: K)
    requires
        assoc_unique(s),
    ensures
        assoc_unique(assoc_put(s, k, v)),
        assoc_get(assoc_put(s, k, v), k2) == if k2 == k {
            Some(v)
        } else {
            assoc_get(s, k2)
        },
{
    let t = assoc_put(s, k, v);
    lemma_assoc_index(s, k);
    lemma_assoc_index(s, k2);
    lemma_assoc_index(t, k2);
    if assoc_has(s, k) {
        let i = assoc_index(s, k);
        assert(assoc_unique(t));
        if k2 == k {
            lemma_assoc_index_at(t, k, i);
        } else {
            if assoc_has(s, k2) {
                let j = assoc_index(s, k2);
                assert(t[j].0 == k2);
                assert(forall|m: int| 0 <= m < j ==> t[m].0 != k2);
                lemma_assoc_index_at(t, k2, j);
            } else {
                assert(forall|m: int| 0 <= m < t.len() ==> t[m].0 != k2);
                if assoc_has(t, k2) {
                    assert(t[assoc_index(t, k2)].0 == k2);
                }
            }
        }
    } else {
        assert(forall|j: int| 0 <= j < s.len() ==> s[j].0 != k);
        assert forall|p: int, q: int| 0 <= p < q < t.len() implies t[p].0 != t[q].0 by {
            if q < s.len() {
                assert(s[p].0 != s[q].0);
            }
        }
        if k2 == k {
            lemma_assoc_index_at(t, k, s.len() as int);
        } else {
            if assoc_has(s, k2) {
                let j = assoc_index(s, k2);
                assert(t[j].0 == k2);
                assert(forall|m: int| 0 <= m < j ==> t[m].0 != k2);
                lemma_assoc_index_at(t, k2, j);
            } else {
                assert(forall|m: int| 0 <= m < t.len() ==> t[m].0 != k2);
                if assoc_has(t, k2) {
                    assert(t[assoc_index(t, k2)].0 == k2);
                }
            }
        }
    }
}

/// A map from strings to values, keeping its entries in insertion
/// order; inserting an existing key replaces its value in place.
#[derive(Debug)]
pub struct StrMap<V: View> {
    items: Vec<(String, V)>,
}

impl<V: View> View for StrMap<V> {
    type V = Seq<(Seq<char>, V::V)>;

    closed spec fn view(&self) -> Seq<(Seq<char>, V::V)> {
        Seq::new(self.items@.len(), |i: int| (self.items@[i].0@, self.items@[i].1@))
    }
}

impl<V: View> StrMap<V> {
    pub fn new() -> (r: Self)
        ensures
            r@ == Seq::<(Seq<char>, V::V)>::empty(),
    {
        let r = StrMap { items: Vec::new() };
        proof {
            assert(r@ =~= Seq::<(Seq<char>, V::V)>::empty());
        }
        r
    }

    pub fn len(&self) -> (r: usize)
        ensures
            r == self@.len(),
    {
        self.items.len()
    }

    /// Position of the first entry for `k`, if one exists.
    pub fn index_of(&self, k: &String) -> (r: Option<usize>)
        ensures
            match r {
                Some(i) => i as int == assoc_index(self@, k@),
                None => !assoc_has(self@, k@),
            },
    {
        let n = self.items.len();
        for i in 0..n
            invariant
                n == self@.len(),
                forall|j: int| 0 <= j < i ==> self@[j].0 != k@,
        {
            if self.items[i].0.eq(k) {
                proof {
                    lemma_assoc_index_at(self@, k@, i as int);
                }
                return Some(i);
            }
        }
        proof {
            lemma_assoc_index(self@, k@);
        }
        None
    }

    pub fn contains_key(&self, k: &String) -> (r: bool)
        ensures
            r == assoc_has(self@, k@),
    {
        proof {
            lemma_assoc_index(self@, k@);
        }
        self.index_of(k).is_some()
    }

    pub fn get(&self, k: &String) -> (r: Option<&V>)
        ensures
            match r {
                Some(v) => assoc_get(self@, k@) == Some(v@),
                None => assoc_get(self@, k@) is None,
            },
    {
        proof {
            lemma_assoc_index(self@, k@);
        }
        match self.index_of(k) {
            Some(i) => Some(&self.items[i].1),
            None => None,
        }
    }

    /// Inserts `v` under `k`: replaces the value of the first entry
    /// with that key in place, or appends a new entry at the end.
    pub fn insert(&mut self, k: String, v: V)
        ensures
            final(self)@ == assoc_put(old(self)@, k@, v@),
    {
        proof {
            lemma_assoc_index(old(self)@, k@);
        }
        let ghost oldv = self@;
        match self.index_of(&k) {
            Some(i) => {
                self.items[i] = (k, v);
                proof {
                    assert(self@ =~= assoc_put(oldv, k@, v@));
                }
            },
            None => {
                self.items.push((k, v));
                proof {
                    assert(self@ =~= assoc_put(oldv, k@, v@));
                }
            },
        }
    }

    /// The key of the entry at position `i`.
    pub fn key_at(&self, i: usize) -> (r: &String)
        requires
            i < self@.len(),
        ensures
            r@ == self@[i as int].0,
    {
        &self.items[i].0
    }

    /// The value of the entry at position `i`.
    pub fn val_at(&self, i: usize) -> (r: &V)
        requires
            i < self@.len(),
        ensures
            r@ == self@[i as int].1,
    {
        &self.items[i].1
    }

    /// A mutable borrow of the value of the entry at position `i`; the
    /// map afterwards holds whatever the caller left in it.
    pub fn val_at_mut(&mut self, i: usize) -> (element: &mut V)
        requires
            i < old(self)@.len(),
        ensures
            element@ == old(self)@[i as int].1,
            final(self)@ == old(self)@.update(
                i as int,
                (old(self)@[i as int].0, final(element)@),
            ),
    {
        &mut self.items[i].1
    }

    /// Wraps a ready list of entries as a map; the entries are taken
    /// as they are, in order.
    pub fn from_entries(items: Vec<(String, V)>) -> (r: Self)
        ensures
            r@ == items@.map_values(|p: (String, V)| (p.0@, p.1@)),
    {
        let r = StrMap { items };
        proof {
            assert(r@ =~= r.items@.map_values(|p: (String, V)| (p.0@, p.1@)));
        }
        r
    }

    /// Whether all keys are distinct.
    pub fn keys_unique(&self) -> (r: bool)
        ensures
            r == assoc_unique(self@),
    {
        let n = self.items.len();
        for i in 0..n
            invariant
                n == self@.len(),
                forall|p: int, q: int| 0 <= p < q <= i - 1 ==> self@[p].0 != self@[q].0,
        {
            match self.index_of(&self.items[i].0) {
                Some(j) => {
                    if j != i {
                        proof {
                            lemma_assoc_index(self@, self@[i as int].0);
                            assert(self@[j as int].0 == self@[i as int].0);
                        }
                        return false;
                    }
                    proof {
                        lemma_assoc_index(self@, self@[i as int].0);
                        assert forall|p: int, q: int|
                            0 <= p < q <= i implies self@[p].0 != self@[q].0 by {
                            if q == i as int {
                                assert(self@[p].0 != self@[q].0);
                            }
                        }
                    }
                },
                None => {
                    proof {
                        lemma_assoc_index(self@, self@[i as int].0);
                    }
                },
            }
        }
        true
    }
}

/// A map from integer identifiers to values, keeping its entries in
/// insertion order; inserting an existing key replaces its value.
#[derive(Debug)]
pub struct IdMap<V: View> {
    items: Vec<(u128, V)>,
}

impl<V: View> View for IdMap<V> {
    type V = Seq<(u128, V::V)>;

    closed spec fn view(&self) -> Seq<(u128, V::V)> {
        Seq::new(self.items@.len(), |i: int| (self.items@[i].0, self.items@[i].1@))
    }
}

impl<V: View> IdMap<V> {
    pub fn new() -> (r: Self)
        ensures
            r@ == Seq::<(u128, V::V)>::empty(),
    {
        let r = IdMap { items: Vec::new() };
        proof {
            assert(r@ =~= Seq::<(u128, V::V)>::empty());
        }
        r
    }

    pub fn len(&self) -> (r: usize)
        ensures
            r == self@.len(),
    {
        self.items.len()
    }

    /// Position of the first entry for `k`, if one exists.
    pub fn index_of(&self, k: u128) -> (r: Option<usize>)
        ensures
            match r {
                Some(i) => i as int == assoc_index(self@, k),
                None => !assoc_has(self@, k),
            },
    {
        let n = self.items.len();
        for i in 0..n
            invariant
                n == self@.len(),
                forall|j: int| 0 <= j < i ==> self@[j].0 != k,
        {
            if self.items[i].0 == k {
                proof {
                    lemma_assoc_index_at(self@, k, i as int);
                }
                return Some(i);
            }
        }
        proof {
            lemma_assoc_index(self@, k);
        }
        None
    }

    pub fn contains_key(&self, k: u128) -> (r: bool)
        ensures
            r == assoc_has(self@, k),
    {
        proof {
            lemma_assoc_index(self@, k);
        }
        self.index_of(k).is_some()
    }

    pub fn get(&self, k: u128) -> (r: Option<&V>)
        ensures
            match r {
                Some(v) => assoc_get(self@, k) == Some(v@),
                None => assoc_get(self@, k) is None,
            },
    {
        proof {
            lemma_assoc_index(self@, k);
        }
        match self.index_of(k) {
            Some(i) => Some(&self.items[i].1),
            None => None,
        }
    }

    /// Inserts `v` under `k`: replaces the value of the first entry
    /// with that key in place, or appends a new entry at the end.
    pub fn insert(&mut self, k: u128, v: V)
        ensures
            final(self)@ == assoc_put(old(self)@, k, v@),
    {
        proof {
            lemma_assoc_index(old(self)@, k);
        }
        let ghost oldv = self@;
        match self.index_of(k) {
            Some(i) => {
                self.items[i] = (k, v);
                proof {
                    assert(self@ =~= assoc_put(oldv, k, v@));
                }
            },
            None => {
                self.items.push((k, v));
                proof {
                    assert(self@ =~= assoc_put(oldv, k, v@));
                }
            },
        }
    }

    /// The key of the entry at position `i`.
    pub fn key_at(&self, i: usize) -> (r: u128)
        requires
            i < self@.len(),
        ensures
            r == self@[i as int].0,
    {
        self.items[i].0
    }

    /// The value of the entry at position `i`.
    pub fn val_at(&self, i: usize) -> (r: &V)
        requires
            i < self@.len(),
        ensures
            r@ == self@[i as int].1,
    {
        &self.items[i].1
    }

    /// A mutable borrow of the value of the entry at position `i`; the
    /// map afterwards holds whatever the caller left in it.
    pub fn val_at_mut(&mut self, i: usize) -> (element: &mut V)
        requires
            i < old(self)@.len(),
        ensures
            element@ == old(self)@[i as int].1,
            final(self)@ == old(self)@.update(
                i as int,
                (old(self)@[i as int].0, final(element)@),
            ),
    {
        &mut self.items[i].1
    }

    /// Wraps a ready list of entries as a map; the entries are taken
    /// as they are, in order.
    pub fn from_entries(items: Vec<(u128, V)>) -> (r: Self)
        ensures
            r@ == items@.map_values(|p: (u128, V)| (p.0, p.1@)),
    {
        let r = IdMap { items };
        proof {
            assert(r@ =~= r.items@.map_values(|p: (u128, V)| (p.0, p.1@)));
        }
        r
    }

    /// Whether all keys are distinct.
    pub fn keys_unique(&self) -> (r: bool)
        ensures
            r == assoc_unique(self@),
    {
        let n = self.items.len();
        for i in 0..n
            invariant
                n == self@.len(),
                forall|p: int, q: int| 0 <= p < q <= i - 1 ==> self@[p].0 != self@[q].0,
        {
            match self.index_of(self.items[i].0) {
                Some(j) => {
                    if j != i {
                        proof {
                            lemma_assoc_index(self@, self@[i as int].0);
                            assert(self@[j as int].0 == self@[i as int].0);
                        }
                        return false;
                    }
                    proof {
                        lemma_assoc_index(self@, self@[i as int].0);
                        assert forall|p: int, q: int|
                            0 <= p < q <= i implies self@[p].0 != self@[q].0 by {
                            if q == i as int {
                                assert(self@[p].0 != self@[q].0);
                            }
                        }
                    }
                },
                None => {
                    proof {
                        lemma_assoc_index(self@, self@[i as int].0);
                    }
                },
            }
        }
        true
    }
}

} // verus!
