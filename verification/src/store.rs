//! The key-value store that holds the chain's state between the hooks.

use crate::buffer::copy_bytes;
use crate::bytemap::{canonical, entries_map, lemma_entry_in_map, position_of, ByteMap};
use vstd::prelude::*;

verus! {

/// A store of byte strings under byte-string keys. A write is visible to every later read,
/// and the keys are held in lexicographic order.
#[derive(Clone, Debug, PartialEq, Eq)]
pub struct Store {
    data: ByteMap<Vec<u8>>,
}

impl View for Store {
    type V = Map<Seq<u8>, Seq<u8>>;

    closed spec fn view(&self) -> Map<Seq<u8>, Seq<u8>> {
        self.data@.map_values(|v: Vec<u8>| v@)
    }
}

impl Store {
    /// The keys are in order and none occurs twice.
    pub closed spec fn wf(&self) -> bool {
        self.data.wf()
    }

    /// An empty store.
    pub fn new() -> (r: Self)
        ensures
            r.wf(),
            r@ == Map::<Seq<u8>, Seq<u8>>::empty(),
    {
        let r = Store { data: ByteMap::new() };
        assert(r@ =~= Map::<Seq<u8>, Seq<u8>>::empty());
        r
    }

    /// The value under `key`, or `None` where the store holds nothing under it.
    pub fn get(&self, key: &[u8]) -> (r: Option<Vec<u8>>)
        requires
            self.wf(),
        ensures
            match r {
                Some(v) => self@.contains_key(key@) && self@[key@] == v@,
                None => !self@.contains_key(key@),
            },
    {
        match self.data.get(key) {
            Some(v) => Some(copy_bytes(v.as_slice())),
            None => None,
        }
    }

    /// Writes `value` under `key`, over what was there before. No other key changes.
    pub fn put(&mut self, key: Vec<u8>, value: Vec<u8>)
        requires
            old(self).wf(),
        ensures
            final(self).wf(),
            final(self)@ == old(self)@.insert(key@, value@),
    {
        self.data.insert(key, value);
        assert(self@ =~= old(self)@.insert(key@, value@));
    }

    /// Whether the store holds a value under `key`.
    pub fn contains_key(&self, key: &[u8]) -> (r: bool)
        requires
            self.wf(),
        ensures
            r == self@.contains_key(key@),
    {
        self.data.contains_key(key)
    }

    /// The entries of the store in the order in which it hands them out: ascending by key.
    pub closed spec fn entries(&self) -> Seq<(Seq<u8>, Seq<u8>)> {
        Seq::new(
            self.data.entries().len(),
            |i: int| (self.data.entries()[i].0, self.data.entries()[i].1@),
        )
    }

    /// The entries are in canonical order, and they are what the store holds.
    pub proof fn lemma_entries(&self)
        requires
            self.wf(),
        ensures
            canonical(self.entries()),
            entries_map(self.entries()) == self@,
    {
        let raw = self.data.entries();
        let es = self.entries();
        assert forall|i: int, j: int| 0 <= i < j < es.len() implies crate::order::lex_lt(
            (#[trigger] es[i]).0,
            (#[trigger] es[j]).0,
        ) by {
            assert(crate::order::lex_lt(raw[i].0, raw[j].0));
        }
        assert forall|k: Seq<u8>| entries_map(es).contains_key(k) <==> self@.contains_key(k) by {
            if entries_map(es).contains_key(k) {
                let i = position_of(es, k);
                assert(raw[i].0 == k);
            }
            if self@.contains_key(k) {
                let i = position_of(raw, k);
                assert(es[i].0 == k);
            }
        }
        assert forall|k: Seq<u8>| entries_map(es).contains_key(k) implies entries_map(es)[k]
            == self@[k] by {
            let i = position_of(es, k);
            lemma_entry_in_map(es, i);
            lemma_entry_in_map(raw, i);
        }
        assert(entries_map(es) =~= self@);
    }

    /// The entries of the store, ascending by key.
    pub fn snapshot(&self) -> (r: Vec<(Vec<u8>, Vec<u8>)>)
        requires
            self.wf(),
        ensures
            r@.len() == self.entries().len(),
            forall|i: int|
                0 <= i < r@.len() ==> (#[trigger] r@[i]).0@ == self.entries()[i].0 && r@[i].1@
                    == self.entries()[i].1,
    {
        let mut out: Vec<(Vec<u8>, Vec<u8>)> = Vec::new();
        let mut i: usize = 0;
        while i < self.data.len()
            invariant
                i <= self.data.entries().len(),
                out@.len() == i,
                forall|j: int|
                    0 <= j < i ==> (#[trigger] out@[j]).0@ == self.entries()[j].0 && out@[j].1@
                        == self.entries()[j].1,
            decreases self.data.entries().len() - i,
        {
            let key = copy_bytes(self.data.key_at(i).as_slice());
            let value = copy_bytes(self.data.value_at(i).as_slice());
            out.push((key, value));
            i += 1;
        }
        out
    }

    /// The number of keys.
    pub fn len(&self) -> (n: usize)
        requires
            self.wf(),
        ensures
            n == self@.dom().len(),
            self@.dom().finite(),
    {
        proof {
            crate::bytemap::lemma_domain_size(self.data.entries());
            assert(self@.dom() =~= self.data@.dom());
        }
        self.data.len()
    }
}

} // verus!
