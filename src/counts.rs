//! The contribution accumulator: line counts per author email.

use vstd::prelude::*;
use crate::table::{StrMap, pairs_map, lemma_pairs_map_push, lemma_pairs_map_index};

verus! {

/// The sum of a sequence of counts.
pub open spec fn nat_sum(s: Seq<nat>) -> nat
    decreases s.len(),
{
    if s.len() == 0 {
        0
    } else {
        nat_sum(s.drop_last()) + s.last()
    }
}

pub proof fn lemma_nat_sum_update(s: Seq<nat>, i: int, v: nat)
    requires
        0 <= i < s.len(),
    ensures
        nat_sum(s.update(i, v)) + s[i] == nat_sum(s) + v,
    decreases s.len(),
{
    let u = s.update(i, v);
    if i < s.len() - 1 {
        assert(u.drop_last() =~= s.drop_last().update(i, v));
        lemma_nat_sum_update(s.drop_last(), i, v);
    } else {
        assert(u.drop_last() =~= s.drop_last());
    }
}

pub proof fn lemma_nat_sum_take(s: Seq<nat>, i: int)
    requires
        0 <= i <= s.len(),
    ensures
        nat_sum(s.take(i)) <= nat_sum(s),
    decreases s.len(),
{
    if i < s.len() {
        assert(s.drop_last().take(i) =~= s.take(i));
        lemma_nat_sum_take(s.drop_last(), i);
    } else {
        assert(s.take(i) =~= s);
    }
}

/// The count of `k` in `m`; zero where `m` has no entry for it.
pub open spec fn count_of(m: Map<Seq<char>, nat>, k: Seq<char>) -> nat {
    if m.contains_key(k) {
        m[k]
    } else {
        0
    }
}

/// `m` with `n` more lines attributed to `k`.
pub open spec fn add_count(m: Map<Seq<char>, nat>, k: Seq<char>, n: nat) -> Map<Seq<char>, nat> {
    m.insert(k, count_of(m, k) + n)
}

/// Elementwise addition of two count maps over the union of their keys.
pub open spec fn merged(a: Map<Seq<char>, nat>, b: Map<Seq<char>, nat>) -> Map<Seq<char>, nat> {
    Map::new(
        |k: Seq<char>| a.contains_key(k) || b.contains_key(k),
        |k: Seq<char>| count_of(a, k) + count_of(b, k),
    )
}

/// Line counts per author email, with their running total.
pub struct LineCounts {
    table: StrMap<usize>,
    total: usize,
}

impl LineCounts {
    /// The emails, in the order in which they were first counted.
    pub closed spec fn email_seq(&self) -> Seq<Seq<char>> {
        self.table.key_seq()
    }

    /// The counts, position for position with `email_seq`.
    pub closed spec fn count_seq(&self) -> Seq<nat> {
        self.table.val_seq().map_values(|c: usize| c as nat)
    }

    /// The sum of all counts.
    pub closed spec fn spec_total(&self) -> nat {
        self.total as nat
    }

    pub closed spec fn wf(&self) -> bool {
        &&& self.table.wf()
        &&& self.total as nat == nat_sum(self.count_seq())
    }

    pub open spec fn view(&self) -> Map<Seq<char>, nat> {
        pairs_map(self.email_seq(), self.count_seq())
    }

    pub proof fn lemma_shape(&self)
        requires
            self.wf(),
        ensures
            self.email_seq().len() == self.count_seq().len(),
            self.email_seq().no_duplicates(),
            self.spec_total() == nat_sum(self.count_seq()),
            self.spec_total() <= usize::MAX,
    {
    }

    pub fn new() -> (r: Self)
        ensures
            r.wf(),
            r@ == Map::<Seq<char>, nat>::empty(),
            r.spec_total() == 0,
            r.email_seq().len() == 0,
    {
        let r = LineCounts { table: StrMap::new(), total: 0 };
        assert(r.count_seq() =~= Seq::<nat>::empty());
        assert(r@ =~= Map::<Seq<char>, nat>::empty());
        r
    }

    /// The number of distinct emails.
    pub fn len(&self) -> (r: usize)
        requires
            self.wf(),
        ensures
            r == self.email_seq().len(),
    {
        self.table.len()
    }

    pub fn total(&self) -> (r: usize)
        requires
            self.wf(),
        ensures
            r == self.spec_total(),
    {
        self.total
    }

    pub fn email_at(&self, i: usize) -> (r: &String)
        requires
            self.wf(),
            i < self.email_seq().len(),
        ensures
            r@ == self.email_seq()[i as int],
    {
        self.table.key_at(i)
    }

    pub fn count_at(&self, i: usize) -> (r: usize)
        requires
            self.wf(),
            i < self.email_seq().len(),
        ensures
            r == self.count_seq()[i as int],
    {
        *self.table.value_at(i)
    }

    /// The number of lines attributed to `email`.
    pub fn get(&self, email: &String) -> (r: usize)
        requires
            self.wf(),
        ensures
            r == count_of(self@, email@),
    {
        match self.table.find(email) {
            Some(i) => {
                proof {
                    lemma_pairs_map_index(self.email_seq(), self.count_seq(), i as int);
                }
                *self.table.value_at(i)
            },
            None => 0,
        }
    }

    /// Attributes `n` more lines to `email`.
    pub fn add(&mut self, email: String, n: usize)
        requires
            old(self).wf(),
            old(self).spec_total() + n <= usize::MAX,
        ensures
            final(self).wf(),
            final(self)@ == add_count(old(self)@, email@, n as nat),
            final(self).spec_total() == old(self).spec_total() + n,
    {
        let ghost ks = self.email_seq();
        let ghost cs = self.count_seq();
        match self.table.find(&email) {
            Some(i) => {
                let c = *self.table.value_at(i);
                proof {
                    lemma_pairs_map_index(ks, cs, i as int);
                    lemma_nat_sum_update(cs, i as int, 0);
                    lemma_nat_sum_update(cs, i as int, (c + n) as nat);
                    crate::table::lemma_pairs_map_update(ks, cs, i as int, (c + n) as nat);
                }
                self.table.set_value(i, c + n);
                assert(self.count_seq() =~= cs.update(i as int, (c + n) as nat));
            },
            None => {
                let ghost k = email@;
                proof {
                    lemma_pairs_map_push(ks, cs, k, n as nat);
                }
                self.table.push_new(email, n);
                assert(self.count_seq() =~= cs.push(n as nat));
                assert(self.count_seq().drop_last() =~= cs);
            },
        }
        self.total = self.total + n;
    }

    /// Adds every count of `other` to this accumulator.
    pub fn merge(&mut self, other: &LineCounts)
        requires
            old(self).wf(),
            other.wf(),
            old(self).spec_total() + other.spec_total() <= usize::MAX,
        ensures
            final(self).wf(),
            final(self)@ == merged(old(self)@, other@),
            final(self).spec_total() == old(self).spec_total() + other.spec_total(),
    {
        let ghost start = self@;
        let ghost ks = other.email_seq();
        let ghost cs = other.count_seq();
        let n = other.len();
        let mut i: usize = 0;
        assert(pairs_map(ks.take(0), cs.take(0)) =~= Map::<Seq<char>, nat>::empty());
        assert(merged(start, Map::<Seq<char>, nat>::empty()) =~= start);
        while i < n
            invariant
                self.wf(),
                other.wf(),
                n == ks.len(),
                ks == other.email_seq(),
                cs == other.count_seq(),
                ks.len() == cs.len(),
                ks.no_duplicates(),
                i <= n,
                self@ == merged(start, pairs_map(ks.take(i as int), cs.take(i as int))),
                self.spec_total() == old(self).spec_total() + nat_sum(cs.take(i as int)),
                old(self).spec_total() + other.spec_total() <= usize::MAX,
                other.spec_total() == nat_sum(cs),
            decreases n - i,
        {
            let email = other.email_at(i).clone();
            let c = other.count_at(i);
            let ghost p = pairs_map(ks.take(i as int), cs.take(i as int));
            proof {
                assert(cs.take(i + 1).drop_last() =~= cs.take(i as int));
                lemma_nat_sum_take(cs, i + 1);
                assert(!ks.take(i as int).contains(ks[i as int])) by {
                    if ks.take(i as int).contains(ks[i as int]) {
                        let j = choose|j: int| 0 <= j < i && ks.take(i as int)[j] == ks[i as int];
                        assert(ks[j] == ks[i as int]);
                    }
                }
                assert(ks.take(i as int).no_duplicates());
                assert(ks.take(i + 1) =~= ks.take(i as int).push(ks[i as int]));
                assert(cs.take(i + 1) =~= cs.take(i as int).push(cs[i as int]));
                lemma_pairs_map_push(ks.take(i as int), cs.take(i as int), ks[i as int], cs[i as int]);
                assert(merged(start, p.insert(ks[i as int], c as nat)) =~= add_count(
                    merged(start, p),
                    ks[i as int],
                    c as nat,
                ));
            }
            self.add(email, c);
            i = i + 1;
        }
        assert(ks.take(n as int) =~= ks);
        assert(cs.take(n as int) =~= cs);
    }
}

pub proof fn lemma_merge_commutative_maps(a: Map<Seq<char>, nat>, b: Map<Seq<char>, nat>)
    ensures
        merged(a, b) == merged(b, a),
{
    assert(merged(a, b) =~= merged(b, a));
}

pub proof fn lemma_merge_associative_maps(
    a: Map<Seq<char>, nat>,
    b: Map<Seq<char>, nat>,
    c: Map<Seq<char>, nat>,
)
    ensures
        merged(merged(a, b), c) == merged(a, merged(b, c)),
{
    assert(merged(merged(a, b), c) =~= merged(a, merged(b, c)));
}

/// Merging is commutative: the order in which two accumulators are merged
/// does not change the counts.
pub proof fn lemma_merge_commutative(a: &LineCounts, b: &LineCounts)
    ensures
        merged(a@, b@) == merged(b@, a@),
{
    lemma_merge_commutative_maps(a@, b@);
}

/// Merging is associative: grouping the merges of three accumulators
/// differently does not change the counts.
pub proof fn lemma_merge_associative(a: &LineCounts, b: &LineCounts, c: &LineCounts)
    ensures
        merged(merged(a@, b@), c@) == merged(a@, merged(b@, c@)),
{
    lemma_merge_associative_maps(a@, b@, c@);
}

} // verus!
