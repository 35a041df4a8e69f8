//! A map keyed by byte strings that keeps its entries in lexicographic key order.
//!
//! The order of the entries is a function of the keys alone, never of the order in which they
//! were inserted, so walking the map gives the same sequence on every node.

use crate::order::{lemma_lex_irreflexive, lemma_lex_transitive, lex_lt, rank_bytes, Rank};
use vstd::prelude::*;

verus! {

/// The keys of `entries` ascend strictly in lexicographic order; no key occurs twice.
pub open spec fn canonical<V>(entries: Seq<(Seq<u8>, V)>) -> bool {
    forall|i: int, j: int|
        0 <= i < j < entries.len() ==> lex_lt((#[trigger] entries[i]).0, (#[trigger] entries[j]).0)
}

/// `entries` holds an entry under the key `k`.
pub open spec fn has_key<V>(entries: Seq<(Seq<u8>, V)>, k: Seq<u8>) -> bool {
    exists|i: int| 0 <= i < entries.len() && (#[trigger] entries[i]).0 == k
}

/// The position of an entry of `entries` under the key `k`.
pub open spec fn position_of<V>(entries: Seq<(Seq<u8>, V)>, k: Seq<u8>) -> int {
    choose|i: int| 0 <= i < entries.len() && (#[trigger] entries[i]).0 == k
}

/// The mapping that a sequence of entries stands for.
pub open spec fn entries_map<V>(entries: Seq<(Seq<u8>, V)>) -> Map<Seq<u8>, V> {
    Map::new(|k: Seq<u8>| has_key(entries, k), |k: Seq<u8>| entries[position_of(entries, k)].1)
}

/// In a canonical sequence each entry is what the mapping holds under its key.
pub proof fn lemma_entry_in_map<V>(entries: Seq<(Seq<u8>, V)>, i: int)
    requires
        canonical(entries),
        0 <= i < entries.len(),
    ensures
        entries_map(entries).contains_key(entries[i].0),
        entries_map(entries)[entries[i].0] == entries[i].1,
        position_of(entries, entries[i].0) == i,
{
    let k = entries[i].0;
    assert(has_key(entries, k));
    let c = position_of(entries, k);
    lemma_lex_irreflexive(k);
    if c < i {
        assert(lex_lt(entries[c].0, entries[i].0));
    } else if i < c {
        assert(lex_lt(entries[i].0, entries[c].0));
    }
}

/// A canonical sequence is determined by the mapping it stands for.
pub proof fn lemma_canonical_unique<V>(a: Seq<(Seq<u8>, V)>, b: Seq<(Seq<u8>, V)>)
    requires
        canonical(a),
        canonical(b),
        entries_map(a) == entries_map(b),
    ensures
        a == b,
{
    let lt = |x: (Seq<u8>, V), y: (Seq<u8>, V)| lex_lt(x.0, y.0);
    assert forall|x: (Seq<u8>, V)| !#[trigger] lt(x, x) by {
        lemma_lex_irreflexive(x.0);
    }
    assert forall|x: (Seq<u8>, V), y: (Seq<u8>, V), z: (Seq<u8>, V)| #[trigger]
        lt(x, y) && #[trigger] lt(y, z) implies lt(x, z) by {
        lemma_lex_transitive(x.0, y.0, z.0);
    }
    assert forall|x: (Seq<u8>, V)| a.contains(x) <==> b.contains(x) by {
        if a.contains(x) {
            let i = choose|i: int| 0 <= i < a.len() && a[i] == x;
            lemma_entry_in_map(a, i);
            assert(entries_map(b).contains_key(x.0));
            let j = position_of(b, x.0);
            lemma_entry_in_map(b, j);
            assert(b[j] == x);
        }
        if b.contains(x) {
            let i = choose|i: int| 0 <= i < b.len() && b[i] == x;
            lemma_entry_in_map(b, i);
            assert(entries_map(a).contains_key(x.0));
            let j = position_of(a, x.0);
            lemma_entry_in_map(a, j);
            assert(a[j] == x);
        }
    }
    crate::order::lemma_ascending_unique(a, b, lt);
}

/// Putting an entry at the place that keeps the keys ascending adds it to the mapping.
pub proof fn lemma_insert_entry<V>(entries: Seq<(Seq<u8>, V)>, pos: int, k: Seq<u8>, v: V)
    requires
        canonical(entries),
        0 <= pos <= entries.len(),
        forall|i: int| 0 <= i < pos ==> lex_lt((#[trigger] entries[i]).0, k),
        forall|i: int| pos <= i < entries.len() ==> lex_lt(k, (#[trigger] entries[i]).0),
    ensures
        canonical(entries.insert(pos, (k, v))),
        entries_map(entries.insert(pos, (k, v))) == entries_map(entries).insert(k, v),
{
    let after = entries.insert(pos, (k, v));
    assert forall|i: int, j: int| 0 <= i < j < after.len() implies lex_lt(
        (#[trigger] after[i]).0,
        (#[trigger] after[j]).0,
    ) by {
        if j < pos {
            assert(lex_lt(entries[i].0, entries[j].0));
        } else if j == pos {
            assert(lex_lt(entries[i].0, k));
        } else if i < pos {
            assert(lex_lt(entries[i].0, k));
            assert(lex_lt(k, entries[j - 1].0));
            lemma_lex_transitive(entries[i].0, k, entries[j - 1].0);
        } else if i == pos {
            assert(lex_lt(k, entries[j - 1].0));
        } else {
            assert(lex_lt(entries[i - 1].0, entries[j - 1].0));
        }
    }
    let m1 = entries_map(after);
    let m2 = entries_map(entries).insert(k, v);
    assert forall|q: Seq<u8>| m1.contains_key(q) <==> m2.contains_key(q) by {
        if m1.contains_key(q) {
            let i = position_of(after, q);
            if i < pos {
                assert(entries[i].0 == q);
            } else if i > pos {
                assert(entries[i - 1].0 == q);
            }
        }
        if m2.contains_key(q) {
            if q == k {
                assert(after[pos].0 == q);
            } else {
                let i = position_of(entries, q);
                if i < pos {
                    assert(after[i].0 == q);
                } else {
                    assert(after[i + 1].0 == q);
                }
            }
        }
    }
    assert forall|q: Seq<u8>| m1.contains_key(q) implies m1[q] == m2[q] by {
        let i = position_of(after, q);
        lemma_entry_in_map(after, i);
        if i < pos {
            lemma_entry_in_map(entries, i);
            lemma_lex_irreflexive(k);
        } else if i > pos {
            lemma_entry_in_map(entries, i - 1);
            lemma_lex_irreflexive(k);
        }
    }
    assert(m1 =~= m2);
}

/// Replacing the value of an entry replaces what the mapping holds under its key.
proof fn lemma_update_entry<V>(entries: Seq<(Seq<u8>, V)>, pos: int, v: V)
    requires
        canonical(entries),
        0 <= pos < entries.len(),
    ensures
        canonical(entries.update(pos, (entries[pos].0, v))),
        entries_map(entries.update(pos, (entries[pos].0, v))) == entries_map(entries).insert(
            entries[pos].0,
            v,
        ),
{
    let k = entries[pos].0;
    let after = entries.update(pos, (k, v));
    assert forall|i: int, j: int| 0 <= i < j < after.len() implies lex_lt(
        (#[trigger] after[i]).0,
        (#[trigger] after[j]).0,
    ) by {
        assert(lex_lt(entries[i].0, entries[j].0));
    }
    let m1 = entries_map(after);
    let m2 = entries_map(entries).insert(k, v);
    assert forall|q: Seq<u8>| m1.contains_key(q) <==> m2.contains_key(q) by {
        if m1.contains_key(q) {
            let i = position_of(after, q);
            assert(entries[i].0 == q);
        }
        if m2.contains_key(q) {
            if q == k {
                assert(after[pos].0 == q);
            } else {
                let i = position_of(entries, q);
                assert(after[i].0 == q);
            }
        }
    }
    assert forall|q: Seq<u8>| m1.contains_key(q) implies m1[q] == m2[q] by {
        let i = position_of(after, q);
        lemma_entry_in_map(after, i);
        if i != pos {
            lemma_entry_in_map(entries, i);
        }
    }
    assert(m1 =~= m2);
}

/// Taking an entry out takes its key out of the mapping.
proof fn lemma_remove_entry<V>(entries: Seq<(Seq<u8>, V)>, pos: int)
    requires
        canonical(entries),
        0 <= pos < entries.len(),
    ensures
        canonical(entries.remove(pos)),
        entries_map(entries.remove(pos)) == entries_map(entries).remove(entries[pos].0),
{
    let k = entries[pos].0;
    let after = entries.remove(pos);
    assert forall|i: int, j: int| 0 <= i < j < after.len() implies lex_lt(
        (#[trigger] after[i]).0,
        (#[trigger] after[j]).0,
    ) by {
        let oi = if i < pos { i } else { i + 1 };
        let oj = if j < pos { j } else { j + 1 };
        assert(lex_lt(entries[oi].0, entries[oj].0));
    }
    let m1 = entries_map(after);
    let m2 = entries_map(entries).remove(k);
    assert forall|q: Seq<u8>| m1.contains_key(q) <==> m2.contains_key(q) by {
        if m1.contains_key(q) {
            let i = position_of(after, q);
            let oi = if i < pos { i } else { i + 1 };
            assert(entries[oi].0 == q);
            lemma_entry_in_map(entries, oi);
            lemma_entry_in_map(entries, pos);
        }
        if m2.contains_key(q) {
            let i = position_of(entries, q);
            if i < pos {
                assert(after[i].0 == q);
            } else {
                assert(after[i - 1].0 == q);
            }
        }
    }
    assert forall|q: Seq<u8>| m1.contains_key(q) implies m1[q] == m2[q] by {
        let i = position_of(after, q);
        lemma_entry_in_map(after, i);
        let oi = if i < pos { i } else { i + 1 };
        lemma_entry_in_map(entries, oi);
    }
    assert(m1 =~= m2);
}

/// A canonical sequence stands for a finite mapping with one key for each entry.
pub proof fn lemma_domain_size<V>(entries: Seq<(Seq<u8>, V)>)
    requires
        canonical(entries),
    ensures
        entries_map(entries).dom().finite(),
        entries_map(entries).dom().len() == entries.len(),
    decreases entries.len(),
{
    if entries.len() == 0 {
        assert(entries_map(entries).dom() =~= Set::<Seq<u8>>::empty());
    } else {
        let n = entries.len() - 1;
        let head = entries.drop_last();
        let last = entries[n];
        assert forall|i: int, j: int| 0 <= i < j < head.len() implies lex_lt(
            (#[trigger] head[i]).0,
            (#[trigger] head[j]).0,
        ) by {
            assert(lex_lt(entries[i].0, entries[j].0));
        }
        lemma_domain_size(head);
        assert forall|i: int| 0 <= i < n implies lex_lt((#[trigger] head[i]).0, last.0) by {
            assert(lex_lt(entries[i].0, entries[n].0));
        }
        lemma_insert_entry(head, n, last.0, last.1);
        assert(head.insert(n, last) =~= entries);
        if entries_map(head).contains_key(last.0) {
            let i = position_of(head, last.0);
            assert(lex_lt(head[i].0, last.0));
            lemma_lex_irreflexive(last.0);
        }
        assert(entries_map(entries).dom() =~= entries_map(head).dom().insert(last.0));
    }
}

/// A map from byte strings to `V`, held as entries in ascending key order.
#[derive(Clone, Debug, PartialEq, Eq)]
pub struct ByteMap<V> {
    slots: Vec<(Vec<u8>, V)>,
}

impl<V> View for ByteMap<V> {
    type V = Map<Seq<u8>, V>;

    open spec fn view(&self) -> Map<Seq<u8>, V> {
        entries_map(self.entries())
    }
}

impl<V> ByteMap<V> {
    /// The entries in the order in which the map holds and hands them out.
    pub closed spec fn entries(&self) -> Seq<(Seq<u8>, V)> {
        Seq::new(self.slots@.len(), |i: int| (self.slots@[i].0@, self.slots@[i].1))
    }

    /// The entries are in canonical order.
    pub open spec fn wf(&self) -> bool {
        canonical(self.entries())
    }

    /// No key is longer than a vector can be.
    pub proof fn lemma_keys_fit(&self)
        ensures
            forall|i: int|
                0 <= i < self.entries().len() ==> (#[trigger] self.entries()[i]).0.len()
                    <= usize::MAX,
    {
        assert forall|i: int| 0 <= i < self.entries().len() implies (#[trigger] self.entries()[i]).0.len()
            <= usize::MAX by {
            let v = self.slots@[i].0;
            assert(v.len() == v@.len());
            assert(self.entries()[i].0 == v@);
        }
    }

    /// An empty map.
    pub fn new() -> (r: Self)
        ensures
            r.wf(),
            r.entries() == Seq::<(Seq<u8>, V)>::empty(),
            r@ == Map::<Seq<u8>, V>::empty(),
    {
        let r = ByteMap { slots: Vec::new() };
        assert(r.entries() =~= Seq::<(Seq<u8>, V)>::empty());
        assert(r@ =~= Map::<Seq<u8>, V>::empty());
        r
    }

    /// The number of entries.
    pub fn len(&self) -> (n: usize)
        ensures
            n == self.entries().len(),
    {
        self.slots.len()
    }

    /// The key of the entry at position `i`.
    pub fn key_at(&self, i: usize) -> (k: &Vec<u8>)
        requires
            i < self.entries().len(),
        ensures
            k@ == self.entries()[i as int].0,
    {
        &self.slots[i].0
    }

    /// The value of the entry at position `i`.
    pub fn value_at(&self, i: usize) -> (v: &V)
        requires
            i < self.entries().len(),
        ensures
            *v == self.entries()[i as int].1,
    {
        &self.slots[i].1
    }

    /// Searches for `key`. The position returned is that of its entry where there is one
    /// (the flag is then set), and otherwise the position at which an entry for it belongs.
    fn locate(&self, key: &[u8]) -> (r: (bool, usize))
        requires
            self.wf(),
        ensures
            r.1 <= self.entries().len(),
            forall|i: int| 0 <= i < r.1 ==> lex_lt((#[trigger] self.entries()[i]).0, key@),
            r.0 ==> r.1 < self.entries().len() && self.entries()[r.1 as int].0 == key@,
            !r.0 ==> forall|i: int|
                r.1 <= i < self.entries().len() ==> lex_lt(key@, (#[trigger] self.entries()[i]).0),
            r.0 == self@.contains_key(key@),
    {
        let mut lo: usize = 0;
        let mut hi: usize = self.slots.len();
        while lo < hi
            invariant
                self.wf(),
                lo <= hi <= self.entries().len(),
                self.entries().len() == self.slots@.len(),
                forall|i: int| 0 <= i < lo ==> lex_lt((#[trigger] self.entries()[i]).0, key@),
                forall|i: int|
                    hi <= i < self.entries().len() ==> lex_lt(
                        key@,
                        (#[trigger] self.entries()[i]).0,
                    ),
            decreases hi - lo,
        {
            let mid: usize = lo + (hi - lo) / 2;
            let ghost mid_key = self.entries()[mid as int].0;
            match rank_bytes(self.slots[mid].0.as_slice(), key) {
                Rank::Same => {
                    proof {
                        assert forall|i: int| 0 <= i < mid implies lex_lt(
                            (#[trigger] self.entries()[i]).0,
                            key@,
                        ) by {
                            assert(lex_lt(self.entries()[i].0, self.entries()[mid as int].0));
                        }
                        assert(has_key(self.entries(), key@));
                    }
                    return (true, mid);
                },
                Rank::Before => {
                    proof {
                        assert forall|i: int| 0 <= i < mid + 1 implies lex_lt(
                            (#[trigger] self.entries()[i]).0,
                            key@,
                        ) by {
                            if i < mid {
                                assert(lex_lt(self.entries()[i].0, self.entries()[mid as int].0));
                                lemma_lex_transitive(self.entries()[i].0, mid_key, key@);
                            }
                        }
                    }
                    lo = mid + 1;
                },
                Rank::After => {
                    proof {
                        assert forall|i: int| mid <= i < self.entries().len() implies lex_lt(
                            key@,
                            (#[trigger] self.entries()[i]).0,
                        ) by {
                            if mid < i {
                                assert(lex_lt(self.entries()[mid as int].0, self.entries()[i].0));
                                lemma_lex_transitive(key@, mid_key, self.entries()[i].0);
                            }
                        }
                    }
                    hi = mid;
                },
            }
        }
        proof {
            if has_key(self.entries(), key@) {
                let i = position_of(self.entries(), key@);
                lemma_lex_irreflexive(key@);
                if i < lo {
                    assert(lex_lt(self.entries()[i].0, key@));
                } else {
                    assert(lex_lt(key@, self.entries()[i].0));
                }
            }
        }
        (false, lo)
    }

    /// The value held under `key`, if there is one.
    pub fn get(&self, key: &[u8]) -> (r: Option<&V>)
        requires
            self.wf(),
        ensures
            match r {
                Some(v) => self@.contains_key(key@) && self@[key@] == *v,
                None => !self@.contains_key(key@),
            },
    {
        let (found, pos) = self.locate(key);
        if found {
            proof {
                lemma_entry_in_map(self.entries(), pos as int);
            }
            Some(&self.slots[pos].1)
        } else {
            None
        }
    }

    /// Whether there is an entry under `key`.
    pub fn contains_key(&self, key: &[u8]) -> (r: bool)
        requires
            self.wf(),
        ensures
            r == self@.contains_key(key@),
    {
        self.locate(key).0
    }

    /// Puts `value` under `key`, in place of what was there before.
    pub fn insert(&mut self, key: Vec<u8>, value: V)
        requires
            old(self).wf(),
        ensures
            final(self).wf(),
            final(self)@ == old(self)@.insert(key@, value),
    {
        let (found, pos) = self.locate(key.as_slice());
        let ghost before = self.entries();
        if found {
            self.slots.set(pos, (key, value));
            proof {
                lemma_update_entry(before, pos as int, value);
                assert(self.entries() =~= before.update(pos as int, (before[pos as int].0, value)));
            }
        } else {
            self.slots.insert(pos, (key, value));
            proof {
                lemma_insert_entry(before, pos as int, key@, value);
                assert(self.entries() =~= before.insert(pos as int, (key@, value)));
            }
        }
    }

    /// Takes out the entry under `key`, if there is one.
    pub fn remove(&mut self, key: &[u8])
        requires
            old(self).wf(),
        ensures
            final(self).wf(),
            final(self)@ == old(self)@.remove(key@),
    {
        let (found, pos) = self.locate(key);
        let ghost before = self.entries();
        if found {
            self.slots.remove(pos);
            proof {
                lemma_remove_entry(before, pos as int);
                assert(self.entries() =~= before.remove(pos as int));
            }
        } else {
            assert(self@.remove(key@) =~= self@);
        }
    }
}

} // verus!
