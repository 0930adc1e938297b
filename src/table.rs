//! A string-keyed table: keys are unique and kept in insertion order.

use vstd::prelude::*;

verus! {

/// The position of `k` among the keys `ks`; meaningful when `ks` contains `k`.
pub open spec fn key_index(ks: Seq<Seq<char>>, k: Seq<char>) -> int {
    choose|i: int| 0 <= i < ks.len() && ks[i] == k
}

/// The map that pairs each key of `ks` with the value at its position in `vs`.
pub open spec fn pairs_map<T>(ks: Seq<Seq<char>>, vs: Seq<T>) -> Map<Seq<char>, T> {
    Map::new(|k: Seq<char>| ks.contains(k), |k: Seq<char>| vs[key_index(ks, k)])
}

pub proof fn lemma_key_index(ks: Seq<Seq<char>>, i: int)
    requires
        ks.no_duplicates(),
        0 <= i < ks.len(),
    ensures
        key_index(ks, ks[i]) == i,
{
    assert(0 <= i < ks.len() && ks[i] == ks[i]);
}

pub proof fn lemma_pairs_map_index<T>(ks: Seq<Seq<char>>, vs: Seq<T>, i: int)
    requires
        ks.no_duplicates(),
        0 <= i < ks.len(),
    ensures
        pairs_map(ks, vs).contains_key(ks[i]),
        pairs_map(ks, vs)[ks[i]] == vs[i],
{
    lemma_key_index(ks, i);
    assert(ks.contains(ks[i]));
}

pub proof fn lemma_pairs_map_push<T>(ks: Seq<Seq<char>>, vs: Seq<T>, k: Seq<char>, v: T)
    requires
        ks.no_duplicates(),
        ks.len() == vs.len(),
        !ks.contains(k),
    ensures
        ks.push(k).no_duplicates(),
        pairs_map(ks.push(k), vs.push(v)) == pairs_map(ks, vs).insert(k, v),
{
    let nks = ks.push(k);
    let nvs = vs.push(v);
    assert forall|a: int, b: int| 0 <= a < nks.len() && 0 <= b < nks.len() && a != b implies nks[a]
        != nks[b] by {
        if a < ks.len() && b < ks.len() {
        } else if a < ks.len() {
            assert(ks.contains(ks[a]));
        } else {
            assert(ks.contains(ks[b]));
        }
    }
    let m = pairs_map(ks, vs).insert(k, v);
    assert forall|q: Seq<char>| #[trigger] pairs_map(nks, nvs).contains_key(q) <==> m.contains_key(
        q,
    ) by {
        if ks.contains(q) {
            let j = choose|j: int| 0 <= j < ks.len() && ks[j] == q;
            assert(nks[j] == q);
        }
        if nks.contains(q) && q != k {
            let j = choose|j: int| 0 <= j < nks.len() && nks[j] == q;
            assert(ks[j] == q);
        }
        if q == k {
            assert(nks[ks.len() as int] == k);
        }
    }
    assert forall|q: Seq<char>| #[trigger] m.contains_key(q) implies pairs_map(nks, nvs)[q]
        == m[q] by {
        if q == k {
            lemma_key_index(nks, ks.len() as int);
        } else {
            let j = choose|j: int| 0 <= j < ks.len() && ks[j] == q;
            lemma_key_index(ks, j);
            lemma_key_index(nks, j);
        }
    }
    assert(pairs_map(nks, nvs) =~= m);
}

pub proof fn lemma_pairs_map_update<T>(ks: Seq<Seq<char>>, vs: Seq<T>, i: int, v: T)
    requires
        ks.no_duplicates(),
        ks.len() == vs.len(),
        0 <= i < ks.len(),
    ensures
        pairs_map(ks, vs.update(i, v)) == pairs_map(ks, vs).insert(ks[i], v),
{
    let m = pairs_map(ks, vs).insert(ks[i], v);
    assert(ks.contains(ks[i]));
    assert forall|q: Seq<char>| #[trigger] m.contains_key(q) implies pairs_map(ks, vs.update(i, v))[q]
        == m[q] by {
        let j = choose|j: int| 0 <= j < ks.len() && ks[j] == q;
        lemma_key_index(ks, j);
    }
    assert(pairs_map(ks, vs.update(i, v)) =~= m);
}

/// A table from strings to values of `T`, with each key at most once.
pub struct StrMap<T> {
    keys: Vec<String>,
    vals: Vec<T>,
}

impl<T> StrMap<T> {
    /// The keys, in the order in which they were first inserted.
    pub closed spec fn key_seq(&self) -> Seq<Seq<char>> {
        self.keys@.map_values(|k: String| k@)
    }

    /// The values, position for position with `key_seq`.
    pub closed spec fn val_seq(&self) -> Seq<T> {
        self.vals@
    }

    pub open spec fn wf(&self) -> bool {
        &&& self.key_seq().len() == self.val_seq().len()
        &&& self.key_seq().no_duplicates()
    }

    pub open spec fn view(&self) -> Map<Seq<char>, T> {
        pairs_map(self.key_seq(), self.val_seq())
    }

    pub proof fn lemma_view_index(&self, i: int)
        requires
            self.wf(),
            0 <= i < self.key_seq().len(),
        ensures
            self@.contains_key(self.key_seq()[i]),
            self@[self.key_seq()[i]] == self.val_seq()[i],
    {
        lemma_pairs_map_index(self.key_seq(), self.val_seq(), i);
    }

    pub fn new() -> (r: Self)
        ensures
            r.wf(),
            r.key_seq().len() == 0,
            r@ == Map::<Seq<char>, T>::empty(),
    {
        let r = StrMap { keys: Vec::new(), vals: Vec::new() };
        assert(r@ =~= Map::<Seq<char>, T>::empty());
        r
    }

    pub fn len(&self) -> (r: usize)
        requires
            self.wf(),
        ensures
            r == self.key_seq().len(),
    {
        self.keys.len()
    }

    pub fn key_at(&self, i: usize) -> (r: &String)
        requires
            self.wf(),
            i < self.key_seq().len(),
        ensures
            r@ == self.key_seq()[i as int],
    {
        &self.keys[i]
    }

    pub fn value_at(&self, i: usize) -> (r: &T)
        requires
            self.wf(),
            i < self.key_seq().len(),
        ensures
            *r == self.val_seq()[i as int],
    {
        &self.vals[i]
    }

    /// The position of `key`, if the table holds it.
    pub fn find(&self, key: &String) -> (r: Option<usize>)
        requires
            self.wf(),
        ensures
            match r {
                Some(i) => i < self.key_seq().len() && self.key_seq()[i as int] == key@,
                None => !self.key_seq().contains(key@) && !self@.contains_key(key@),
            },
    {
        let mut i: usize = 0;
        while i < self.keys.len()
            invariant
                self.wf(),
                i <= self.keys@.len(),
                forall|j: int| 0 <= j < i ==> self.key_seq()[j] != key@,
            decreases self.keys@.len() - i,
        {
            if self.keys[i] == *key {
                return Some(i);
            }
            i = i + 1;
        }
        None
    }

    pub fn get(&self, key: &String) -> (r: Option<&T>)
        requires
            self.wf(),
        ensures
            match r {
                Some(v) => self@.contains_key(key@) && *v == self@[key@],
                None => !self@.contains_key(key@),
            },
    {
        match self.find(key) {
            Some(i) => {
                proof {
                    self.lemma_view_index(i as int);
                }
                Some(&self.vals[i])
            },
            None => None,
        }
    }

    pub fn contains_key(&self, key: &String) -> (r: bool)
        requires
            self.wf(),
        ensures
            r == self@.contains_key(key@),
    {
        self.find(key).is_some()
    }

    /// Replaces the value at position `i`.
    pub fn set_value(&mut self, i: usize, value: T)
        requires
            old(self).wf(),
            i < old(self).key_seq().len(),
        ensures
            final(self).wf(),
            final(self).key_seq() == old(self).key_seq(),
            final(self).val_seq() == old(self).val_seq().update(i as int, value),
            final(self)@ == old(self)@.insert(old(self).key_seq()[i as int], value),
    {
        proof {
            lemma_pairs_map_update(self.key_seq(), self.val_seq(), i as int, value);
        }
        self.vals.set(i, value);
    }

    /// Adds `key` with `value` at the end; the key must be new.
    pub fn push_new(&mut self, key: String, value: T)
        requires
            old(self).wf(),
            !old(self)@.contains_key(key@),
        ensures
            final(self).wf(),
            final(self).key_seq() == old(self).key_seq().push(key@),
            final(self).val_seq() == old(self).val_seq().push(value),
            final(self)@ == old(self)@.insert(key@, value),
    {
        proof {
            lemma_pairs_map_push(self.key_seq(), self.val_seq(), key@, value);
        }
        let ghost k = key@;
        self.keys.push(key);
        self.vals.push(value);
        assert(self.key_seq() =~= old(self).key_seq().push(k));
    }

    /// Sets the value of `key`, adding the key at the end if it is new.
    pub fn insert(&mut self, key: String, value: T)
        requires
            old(self).wf(),
        ensures
            final(self).wf(),
            final(self)@ == old(self)@.insert(key@, value),
    {
        match self.find(&key) {
            Some(i) => self.set_value(i, value),
            None => self.push_new(key, value),
        }
    }
}

} // verus!
