//! A map from addresses to values, kept in address order.

use crate::text::{addr_before, lemma_addr_before_irreflexive, lemma_addr_before_transitive, side_of, Side};
use vstd::prelude::*;

verus! {

/// Sum of a sequence of integers.
pub open spec fn seq_sum(s: Seq<int>) -> int
    decreases s.len(),
{
    if s.len() == 0 {
        0
    } else {
        seq_sum(s.drop_last()) + s.last()
    }
}

/// Inserting `x` anywhere adds `x` to the sum.
pub proof fn lemma_sum_insert(s: Seq<int>, i: int, x: int)
    requires
        0 <= i <= s.len(),
    ensures
        seq_sum(s.insert(i, x)) == seq_sum(s) + x,
    decreases s.len(),
{
    let t = s.insert(i, x);
    if i == s.len() {
        assert(t.drop_last() =~= s);
    } else {
        assert(t.drop_last() =~= s.drop_last().insert(i, x));
        assert(t.last() == s.last());
        lemma_sum_insert(s.drop_last(), i, x);
    }
}

/// Removing the item at `i` takes it from the sum.
pub proof fn lemma_sum_remove(s: Seq<int>, i: int)
    requires
        0 <= i < s.len(),
    ensures
        seq_sum(s.remove(i)) == seq_sum(s) - s[i],
{
    let t = s.remove(i);
    assert(t.insert(i, s[i]) =~= s);
    lemma_sum_insert(t, i, s[i]);
}

/// Replacing the item at `i` by `x` changes the sum by the difference.
pub proof fn lemma_sum_update(s: Seq<int>, i: int, x: int)
    requires
        0 <= i < s.len(),
    ensures
        seq_sum(s.update(i, x)) == seq_sum(s) - s[i] + x,
{
    lemma_sum_remove(s, i);
    assert(s.remove(i).insert(i, x) =~= s.update(i, x));
    lemma_sum_insert(s.remove(i), i, x);
}

/// A sum of non-negative items is non-negative and bounds each item.
pub proof fn lemma_sum_bounds(s: Seq<int>, i: int)
    requires
        forall|j: int| 0 <= j < s.len() ==> s[j] >= 0,
        0 <= i < s.len(),
    ensures
        0 <= s[i] <= seq_sum(s),
    decreases s.len(),
{
    lemma_sum_nonneg(s.drop_last());
    if i < s.len() - 1 {
        lemma_sum_bounds(s.drop_last(), i);
    }
}

/// A sum of non-negative items is non-negative.
pub proof fn lemma_sum_nonneg(s: Seq<int>)
    requires
        forall|j: int| 0 <= j < s.len() ==> s[j] >= 0,
    ensures
        0 <= seq_sum(s),
    decreases s.len(),
{
    if s.len() > 0 {
        lemma_sum_nonneg(s.drop_last());
    }
}

/// Where every item of `c` is the item of `a` plus `q` times the item of
/// `b`, the sum of `c` is the sum of `a` plus `q` times the sum of `b`.
pub proof fn lemma_sum_linear(a: Seq<int>, b: Seq<int>, c: Seq<int>, q: int)
    requires
        a.len() == b.len(),
        a.len() == c.len(),
        forall|i: int| 0 <= i < a.len() ==> c[i] == a[i] + q * b[i],
    ensures
        seq_sum(c) == seq_sum(a) + q * seq_sum(b),
    decreases a.len(),
{
    if a.len() > 0 {
        lemma_sum_linear(a.drop_last(), b.drop_last(), c.drop_last(), q);
        assert(q * (seq_sum(b.drop_last()) + b.last()) == q * seq_sum(b.drop_last()) + q * b.last())
            by (nonlinear_arith);
    } else {
        assert(q * 0 == 0) by (nonlinear_arith);
    }
}

/// Where every item of `a` is at most the item of `b`, the sum of `a` is at most the sum of `b`.
pub proof fn lemma_sum_le(a: Seq<int>, b: Seq<int>)
    requires
        a.len() == b.len(),
        forall|i: int| 0 <= i < a.len() ==> a[i] <= b[i],
    ensures
        seq_sum(a) <= seq_sum(b),
    decreases a.len(),
{
    if a.len() > 0 {
        lemma_sum_le(a.drop_last(), b.drop_last());
    }
}

/// One key with its value.
#[derive(Clone, Debug, PartialEq, Eq)]
pub struct Entry<V> {
    pub key: String,
    pub value: V,
}

/// A map from addresses to values. Its entries stand in strictly ascending
/// address order, so no key occurs twice.
#[derive(Clone, Debug, PartialEq, Eq)]
pub struct AddrMap<V> {
    pub entries: Vec<Entry<V>>,
}

/// The keys of `s` ascend strictly.
pub open spec fn ascending<V>(s: Seq<Entry<V>>) -> bool {
    forall|i: int, j: int| 0 <= i < j < s.len() ==> addr_before(#[trigger] s[i].key@, #[trigger] s[j].key@)
}

/// The keys of `s`, in order.
pub open spec fn keys_of<V>(s: Seq<Entry<V>>) -> Seq<Seq<char>> {
    Seq::new(s.len(), |i: int| s[i].key@)
}

/// The entries of `s`, each measured by `f` from its key and its value.
pub open spec fn measures<V>(s: Seq<Entry<V>>, f: spec_fn(Seq<char>, V) -> int) -> Seq<int> {
    Seq::new(s.len(), |i: int| f(s[i].key@, s[i].value))
}

impl<V> AddrMap<V> {
    /// The entries are in strictly ascending order of their keys.
    pub open spec fn wf(&self) -> bool {
        ascending(self.entries@)
    }

    /// Some entry holds the key `k`.
    pub open spec fn has(&self, k: Seq<char>) -> bool {
        exists|i: int| 0 <= i < self.entries@.len() && #[trigger] self.entries@[i].key@ == k
    }

    /// The position of the key `k`.
    pub open spec fn slot(&self, k: Seq<char>) -> int {
        choose|i: int| 0 <= i < self.entries@.len() && #[trigger] self.entries@[i].key@ == k
    }

    /// The map that the entries stand for.
    pub open spec fn view(&self) -> Map<Seq<char>, V> {
        Map::new(|k: Seq<char>| self.has(k), |k: Seq<char>| self.entries@[self.slot(k)].value)
    }

    /// The value at `k`, if there is one.
    pub open spec fn at(&self, k: Seq<char>) -> Option<V> {
        if self.has(k) {
            Some(self.entries@[self.slot(k)].value)
        } else {
            None
        }
    }

    /// The sum over all entries of `f` of the key and the value.
    pub open spec fn total(&self, f: spec_fn(Seq<char>, V) -> int) -> int {
        seq_sum(measures(self.entries@, f))
    }

    /// In a well-formed map the entry at position `i` is the one found under its key.
    pub proof fn lemma_slot(&self, i: int)
        requires
            self.wf(),
            0 <= i < self.entries@.len(),
        ensures
            self.has(self.entries@[i].key@),
            self.slot(self.entries@[i].key@) == i,
            self@.contains_key(self.entries@[i].key@),
            self@[self.entries@[i].key@] == self.entries@[i].value,
            self.at(self.entries@[i].key@) == Some(self.entries@[i].value),
    {
        let k = self.entries@[i].key@;
        let j = self.slot(k);
        lemma_addr_before_irreflexive(k);
        if j < i {
            assert(addr_before(self.entries@[j].key@, self.entries@[i].key@));
        }
        if i < j {
            assert(addr_before(self.entries@[i].key@, self.entries@[j].key@));
        }
    }

    /// Two measures that agree on every entry but the one of `k` give sums
    /// that differ by what they differ on that entry.
    pub proof fn lemma_total_differs_at(
        &self,
        f: spec_fn(Seq<char>, V) -> int,
        g: spec_fn(Seq<char>, V) -> int,
        k: Seq<char>,
    )
        requires
            self.wf(),
            forall|i: int|
                0 <= i < self.entries@.len() && self.entries@[i].key@ != k ==> f(
                    self.entries@[i].key@,
                    self.entries@[i].value,
                ) == g(#[trigger] self.entries@[i].key@, self.entries@[i].value),
        ensures
            self.total(g) == self.total(f) + (if self.has(k) {
                g(k, self@[k]) - f(k, self@[k])
            } else {
                0
            }),
    {
        if self.has(k) {
            let i = self.slot(k);
            self.lemma_slot(i);
            assert(measures(self.entries@, g) =~= measures(self.entries@, f).update(i, g(k, self@[k])));
            lemma_sum_update(measures(self.entries@, f), i, g(k, self@[k]));
        } else {
            assert(measures(self.entries@, g) =~= measures(self.entries@, f));
        }
    }

    /// Where the measure `h` is `f` plus `q` times `g` on every entry, so are the sums.
    pub proof fn lemma_total_linear(
        &self,
        f: spec_fn(Seq<char>, V) -> int,
        g: spec_fn(Seq<char>, V) -> int,
        h: spec_fn(Seq<char>, V) -> int,
        q: int,
    )
        requires
            forall|i: int|
                0 <= i < self.entries@.len() ==> h(#[trigger] self.entries@[i].key@, self.entries@[i].value)
                    == f(self.entries@[i].key@, self.entries@[i].value) + q * g(
                    self.entries@[i].key@,
                    self.entries@[i].value,
                ),
        ensures
            self.total(h) == self.total(f) + q * self.total(g),
    {
        let a = measures(self.entries@, f);
        let b = measures(self.entries@, g);
        let c = measures(self.entries@, h);
        assert forall|i: int| 0 <= i < a.len() implies c[i] == a[i] + q * b[i] by {
            assert(h(self.entries@[i].key@, self.entries@[i].value) == f(
                self.entries@[i].key@,
                self.entries@[i].value,
            ) + q * g(self.entries@[i].key@, self.entries@[i].value));
        }
        lemma_sum_linear(a, b, c, q);
    }

    /// Where the measure `f` is at most `g` on every entry, so are the sums.
    pub proof fn lemma_total_le(&self, f: spec_fn(Seq<char>, V) -> int, g: spec_fn(Seq<char>, V) -> int)
        requires
            forall|i: int|
                0 <= i < self.entries@.len() ==> f(#[trigger] self.entries@[i].key@, self.entries@[i].value)
                    <= g(self.entries@[i].key@, self.entries@[i].value),
        ensures
            self.total(f) <= self.total(g),
    {
        let a = measures(self.entries@, f);
        let b = measures(self.entries@, g);
        assert forall|i: int| 0 <= i < a.len() implies a[i] <= b[i] by {
            assert(f(self.entries@[i].key@, self.entries@[i].value) <= g(
                self.entries@[i].key@,
                self.entries@[i].value,
            ));
        }
        lemma_sum_le(a, b);
    }

    /// Where no entry measures below zero, the measure of the entry of `k` is at most the sum.
    pub proof fn lemma_total_bounds(&self, f: spec_fn(Seq<char>, V) -> int, k: Seq<char>)
        requires
            self.wf(),
            self.has(k),
            forall|i: int|
                0 <= i < self.entries@.len() ==> f(#[trigger] self.entries@[i].key@, self.entries@[i].value) >= 0,
        ensures
            0 <= f(k, self@[k]) <= self.total(f),
    {
        let i = self.slot(k);
        self.lemma_slot(i);
        let a = measures(self.entries@, f);
        assert forall|j: int| 0 <= j < a.len() implies a[j] >= 0 by {
            assert(f(self.entries@[j].key@, self.entries@[j].value) >= 0);
        }
        lemma_sum_bounds(a, i);
    }

    /// A map without entries.
    pub fn new() -> (m: Self)
        ensures
            m.wf(),
            m@ == Map::<Seq<char>, V>::empty(),
            m.entries@.len() == 0,
            forall|f: spec_fn(Seq<char>, V) -> int| #[trigger] m.total(f) == 0,
    {
        let m = AddrMap { entries: Vec::new() };
        assert(m@ =~= Map::<Seq<char>, V>::empty());
        m
    }

    /// The number of entries.
    pub fn len(&self) -> (n: usize)
        ensures
            n == self.entries@.len(),
    {
        self.entries.len()
    }

    /// The first position whose key does not come before `k`, and whether that key is `k`.
    pub fn find(&self, k: &String) -> (r: (usize, bool))
        requires
            self.wf(),
        ensures
            r.0 <= self.entries@.len(),
            forall|j: int| 0 <= j < r.0 ==> addr_before(#[trigger] self.entries@[j].key@, k@),
            forall|j: int| r.0 < j < self.entries@.len() ==> addr_before(k@, #[trigger] self.entries@[j].key@),
            r.1 ==> r.0 < self.entries@.len() && self.entries@[r.0 as int].key@ == k@,
            !r.1 && r.0 < self.entries@.len() ==> addr_before(k@, self.entries@[r.0 as int].key@),
            r.1 == self.has(k@),
            r.1 ==> self.slot(k@) == r.0,
    {
        let mut i: usize = 0;
        while i < self.entries.len()
            invariant
                self.wf(),
                i <= self.entries@.len(),
                forall|j: int| 0 <= j < i ==> addr_before(#[trigger] self.entries@[j].key@, k@),
            decreases self.entries@.len() - i,
        {
            match side_of(&self.entries[i].key, k) {
                Side::Before => {},
                Side::Same => {
                    proof {
                        self.lemma_slot(i as int);
                        self.lemma_after(i as int, k@);
                    }
                    return (i, true);
                },
                Side::After => {
                    proof {
                        self.lemma_after(i as int, k@);
                        self.lemma_absent(i as int, k@);
                    }
                    return (i, false);
                },
            }
            i = i + 1;
        }
        proof {
            self.lemma_absent(i as int, k@);
        }
        (i, false)
    }

    /// Every key behind position `i` comes after `k`, where the key at `i` is `k` or comes after it.
    proof fn lemma_after(&self, i: int, k: Seq<char>)
        requires
            self.wf(),
            0 <= i < self.entries@.len(),
            self.entries@[i].key@ == k || addr_before(k, self.entries@[i].key@),
        ensures
            forall|j: int| i < j < self.entries@.len() ==> addr_before(k, #[trigger] self.entries@[j].key@),
    {
        assert forall|j: int| i < j < self.entries@.len() implies addr_before(
            k,
            #[trigger] self.entries@[j].key@,
        ) by {
            assert(addr_before(self.entries@[i].key@, self.entries@[j].key@));
            if self.entries@[i].key@ != k {
                lemma_addr_before_transitive(k, self.entries@[i].key@, self.entries@[j].key@);
            }
        }
    }

    /// A key that lies strictly between the entries before `i` and those from `i` on is absent.
    proof fn lemma_absent(&self, i: int, k: Seq<char>)
        requires
            self.wf(),
            0 <= i <= self.entries@.len(),
            forall|j: int| 0 <= j < i ==> addr_before(#[trigger] self.entries@[j].key@, k),
            forall|j: int| i <= j < self.entries@.len() ==> addr_before(k, #[trigger] self.entries@[j].key@),
        ensures
            !self.has(k),
    {
        lemma_addr_before_irreflexive(k);
    }

    /// The value under `k`.
    pub fn get(&self, k: &String) -> (r: Option<&V>)
        requires
            self.wf(),
        ensures
            match r {
                Some(v) => self@.contains_key(k@) && self@[k@] == *v,
                None => !self@.contains_key(k@),
            },
            r.is_some() == self.has(k@),
            r.is_some() ==> self.at(k@) == Some(*r.unwrap()),
    {
        let (i, found) = self.find(k);
        if found {
            proof {
                self.lemma_slot(i as int);
            }
            Some(&self.entries[i].value)
        } else {
            None
        }
    }

    /// Whether `k` is a key of the map.
    pub fn contains(&self, k: &String) -> (r: bool)
        requires
            self.wf(),
        ensures
            r == self@.contains_key(k@),
            r == self.has(k@),
    {
        let (_, found) = self.find(k);
        found
    }

    /// Puts `v` under `k`, in place of what stood there.
    pub fn insert(&mut self, k: String, v: V)
        requires
            old(self).wf(),
        ensures
            final(self).wf(),
            final(self)@ == old(self)@.insert(k@, v),
            final(self).entries@.len() == old(self).entries@.len() + (if old(self).has(k@) { 0int } else { 1int }),
            old(self).has(k@) ==> keys_of(final(self).entries@) == keys_of(old(self).entries@) && forall|j: int|
                0 <= j < old(self).entries@.len() && j != old(self).slot(k@) ==> final(self).entries@[j].value
                    == old(self).entries@[j].value,
            forall|f: spec_fn(Seq<char>, V) -> int| #[trigger]
                final(self).total(f) == old(self).total(f) + f(k@, v) - (if old(self).has(k@) {
                    f(k@, old(self)@[k@])
                } else {
                    0
                }),
    {
        let ghost before = *self;
        let ghost key = k@;
        let (i, found) = self.find(&k);
        let ghost e = Entry { key: k, value: v };
        if found {
            self.entries[i] = Entry { key: k, value: v };
            proof {
                before.lemma_slot(i as int);
                assert(self.entries@ == before.entries@.update(i as int, e));
                assert(keys_of(self.entries@) =~= keys_of(before.entries@));
                assert forall|f: spec_fn(Seq<char>, V) -> int| #[trigger]
                    self.total(f) == before.total(f) + f(key, v) - f(key, before@[key]) by {
                    assert(measures(self.entries@, f) =~= measures(before.entries@, f).update(i as int, f(key, v)));
                    lemma_sum_update(measures(before.entries@, f), i as int, f(key, v));
                }
            }
        } else {
            self.entries.insert(i, Entry { key: k, value: v });
            proof {
                assert(self.entries@ == before.entries@.insert(i as int, e));
                assert forall|f: spec_fn(Seq<char>, V) -> int| #[trigger] self.total(f) == before.total(f) + f(key, v) by {
                    assert(measures(self.entries@, f) =~= measures(before.entries@, f).insert(i as int, f(key, v)));
                    lemma_sum_insert(measures(before.entries@, f), i as int, f(key, v));
                }
            }
        }
        proof {
            assert(self.wf()) by {
                assert forall|a: int, b: int| 0 <= a < b < self.entries@.len() implies addr_before(
                    #[trigger] self.entries@[a].key@,
                    #[trigger] self.entries@[b].key@,
                ) by {
                    if found {
                        assert(self.entries@[a].key@ == before.entries@[a].key@);
                        assert(self.entries@[b].key@ == before.entries@[b].key@);
                    } else {
                        let a0 = if a < i { a } else { a - 1 };
                        let b0 = if b < i { b } else { b - 1 };
                        if a != i as int && b != i as int {
                            assert(self.entries@[a].key@ == before.entries@[a0].key@);
                            assert(self.entries@[b].key@ == before.entries@[b0].key@);
                        }
                    }
                }
            }
            self.lemma_slot(i as int);
            assert(self@ =~= before@.insert(key, v)) by {
                assert forall|q: Seq<char>| self@.contains_key(q) == before@.insert(key, v).contains_key(
                    q,
                ) by {
                    if q != key {
                        if before.has(q) {
                            let j = before.slot(q);
                            let j1 = if found || j < i { j } else { j + 1 };
                            assert(self.entries@[j1].key@ == q);
                        }
                        if self.has(q) {
                            let j = self.slot(q);
                            let j0 = if found || j < i { j } else { j - 1 };
                            assert(before.entries@[j0].key@ == q);
                        }
                    }
                }
                assert forall|q: Seq<char>| self@.contains_key(q) implies self@[q] == before@.insert(
                    key,
                    v,
                )[q] by {
                    if q != key {
                        let j = self.slot(q);
                        let j0 = if found || j < i { j } else { j - 1 };
                        assert(before.entries@[j0].key@ == q);
                        before.lemma_slot(j0);
                    }
                }
            }
        }
    }

    /// Takes `k` and its value out of the map.
    pub fn remove(&mut self, k: &String) -> (r: Option<V>)
        requires
            old(self).wf(),
        ensures
            final(self).wf(),
            final(self)@ == old(self)@.remove(k@),
            r == old(self).at(k@),
            final(self).entries@.len() == old(self).entries@.len() - (if old(self).has(k@) { 1int } else { 0int }),
            forall|f: spec_fn(Seq<char>, V) -> int| #[trigger]
                final(self).total(f) == old(self).total(f) - (if old(self).has(k@) {
                    f(k@, old(self)@[k@])
                } else {
                    0
                }),
    {
        let ghost before = *self;
        let (i, found) = self.find(k);
        if !found {
            assert(self@ =~= before@.remove(k@));
            return None;
        }
        let e = self.entries.remove(i);
        proof {
            before.lemma_slot(i as int);
            assert forall|f: spec_fn(Seq<char>, V) -> int| #[trigger]
                self.total(f) == before.total(f) - f(k@, before@[k@]) by {
                assert(measures(self.entries@, f) =~= measures(before.entries@, f).remove(i as int));
                lemma_sum_remove(measures(before.entries@, f), i as int);
            }
            assert(self.wf()) by {
                assert forall|a: int, b: int| 0 <= a < b < self.entries@.len() implies addr_before(
                    #[trigger] self.entries@[a].key@,
                    #[trigger] self.entries@[b].key@,
                ) by {
                    let a0 = if a < i { a } else { a + 1 };
                    let b0 = if b < i { b } else { b + 1 };
                    assert(self.entries@[a].key@ == before.entries@[a0].key@);
                    assert(self.entries@[b].key@ == before.entries@[b0].key@);
                }
            }
            assert(self@ =~= before@.remove(k@)) by {
                lemma_addr_before_irreflexive(k@);
                assert forall|q: Seq<char>| self@.contains_key(q) == before@.remove(k@).contains_key(
                    q,
                ) by {
                    if self.has(q) {
                        let j = self.slot(q);
                        let j0 = if j < i { j } else { j + 1 };
                        assert(before.entries@[j0].key@ == q);
                        before.lemma_slot(j0);
                    }
                    if q != k@ && before.has(q) {
                        let j = before.slot(q);
                        let j1 = if j < i { j } else { j - 1 };
                        assert(self.entries@[j1].key@ == q);
                    }
                }
                assert forall|q: Seq<char>| self@.contains_key(q) implies self@[q] == before@.remove(
                    k@,
                )[q] by {
                    let j = self.slot(q);
                    let j0 = if j < i { j } else { j + 1 };
                    assert(before.entries@[j0].key@ == q);
                    before.lemma_slot(j0);
                }
            }
        }
        Some(e.value)
    }
}

} // verus!
