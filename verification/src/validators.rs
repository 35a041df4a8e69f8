//! The validator set: which public keys vote, and with what power.

use crate::bytemap::{
    canonical, entries_map, lemma_canonical_unique, lemma_entry_in_map, lemma_insert_entry,
    position_of, ByteMap,
};
use crate::order::{lemma_lex_transitive, lex_lt, rank_bytes, Rank};
use crate::buffer::copy_bytes;
use vstd::prelude::*;

verus! {

/// One validator as the consensus engine reports it.
#[derive(Clone, Debug, PartialEq, Eq)]
pub struct Validator {
    pub public_key: Vec<u8>,
    pub voting_power: u64,
}

impl View for Validator {
    type V = (Seq<u8>, u64);

    open spec fn view(&self) -> (Seq<u8>, u64) {
        (self.public_key@, self.voting_power)
    }
}

/// What a validator set may hold: keys in canonical order, each with a power above zero and
/// short enough for its length to be written down in eight bytes.
pub open spec fn valid_entries(entries: Seq<(Seq<u8>, u64)>) -> bool {
    &&& canonical(entries)
    &&& forall|i: int| 0 <= i < entries.len() ==> (#[trigger] entries[i]).1 > 0
    &&& forall|i: int| 0 <= i < entries.len() ==> (#[trigger] entries[i]).0.len() <= u64::MAX
}

/// The mapping `m` after `key` was given the power `power`. A validator without power is no
/// validator: power zero leaves no entry.
pub open spec fn with_power(m: Map<Seq<u8>, u64>, key: Seq<u8>, power: u64) -> Map<Seq<u8>, u64> {
    if power == 0 {
        m.remove(key)
    } else {
        m.insert(key, power)
    }
}

/// The mapping that a list of validators gives when each in turn is given its power, a later
/// one overriding an earlier one with the same key.
pub open spec fn collected(list: Seq<(Seq<u8>, u64)>) -> Map<Seq<u8>, u64>
    decreases list.len(),
{
    if list.len() == 0 {
        Map::empty()
    } else {
        with_power(collected(list.drop_last()), list.last().0, list.last().1)
    }
}

/// The entries of the validator set that stands for the mapping `m`, in canonical order.
pub open spec fn canonical_entries(m: Map<Seq<u8>, u64>) -> Seq<(Seq<u8>, u64)> {
    choose|entries: Seq<(Seq<u8>, u64)>| valid_entries(entries) && entries_map(entries) == m
}

/// The canonical entries of the mapping that valid entries stand for are those entries.
pub proof fn lemma_canonical_entries(entries: Seq<(Seq<u8>, u64)>)
    requires
        valid_entries(entries),
    ensures
        canonical_entries(entries_map(entries)) == entries,
{
    let chosen = canonical_entries(entries_map(entries));
    lemma_canonical_unique(chosen, entries);
}

/// The views of a list of validators.
pub open spec fn validator_views(list: Seq<Validator>) -> Seq<(Seq<u8>, u64)> {
    Seq::new(list.len(), |i: int| list[i]@)
}

/// A snapshot of the validators: a mapping from public key to voting power.
#[derive(Clone, Debug, PartialEq, Eq)]
pub struct ValidatorSet {
    powers: ByteMap<u64>,
}

impl View for ValidatorSet {
    type V = Map<Seq<u8>, u64>;

    open spec fn view(&self) -> Map<Seq<u8>, u64> {
        entries_map(self.entries())
    }
}

impl ValidatorSet {
    /// The validators in canonical order: ascending by public key.
    pub closed spec fn entries(&self) -> Seq<(Seq<u8>, u64)> {
        self.powers.entries()
    }

    /// The set holds its validators in canonical order, none without power.
    pub open spec fn wf(&self) -> bool {
        valid_entries(self.entries())
    }

    /// Two sets that map the same keys to the same powers hold the same entries in the same
    /// order, however each of them was built.
    pub proof fn lemma_entries_determined(&self, other: &ValidatorSet)
        requires
            self.wf(),
            other.wf(),
            self@ == other@,
        ensures
            self.entries() == other.entries(),
    {
        lemma_canonical_unique(self.entries(), other.entries());
    }

    /// The empty set.
    pub fn new() -> (r: Self)
        ensures
            r.wf(),
            r.entries() == Seq::<(Seq<u8>, u64)>::empty(),
            r@ == Map::<Seq<u8>, u64>::empty(),
    {
        ValidatorSet { powers: ByteMap::new() }
    }

    /// The number of validators.
    pub fn len(&self) -> (n: usize)
        ensures
            n == self.entries().len(),
    {
        self.powers.len()
    }

    /// The public key of the validator at position `i` of the canonical order.
    pub fn key_at(&self, i: usize) -> (k: &Vec<u8>)
        requires
            i < self.entries().len(),
        ensures
            k@ == self.entries()[i as int].0,
    {
        self.powers.key_at(i)
    }

    /// The voting power of the validator at position `i` of the canonical order.
    pub fn power_at(&self, i: usize) -> (p: u64)
        requires
            i < self.entries().len(),
        ensures
            p == self.entries()[i as int].1,
    {
        *self.powers.value_at(i)
    }

    /// The voting power of `public_key`, or `None` where it is no validator.
    pub fn get(&self, public_key: &[u8]) -> (r: Option<u64>)
        requires
            self.wf(),
        ensures
            r == (if self@.contains_key(public_key@) {
                Some(self@[public_key@])
            } else {
                None
            }),
            r matches Some(p) ==> p > 0,
    {
        match self.powers.get(public_key) {
            Some(p) => {
                proof {
                    let i = position_of(self.entries(), public_key@);
                    lemma_entry_in_map(self.entries(), i);
                }
                Some(*p)
            },
            None => None,
        }
    }

    /// Gives `public_key` the power `voting_power`, in place of what it had. With power zero
    /// the key leaves the set.
    pub fn insert(&mut self, public_key: Vec<u8>, voting_power: u64)
        requires
            old(self).wf(),
        ensures
            final(self).wf(),
            final(self)@ == with_power(old(self)@, public_key@, voting_power),
    {
        let ghost before = self.entries();
        if voting_power == 0 {
            self.powers.remove(public_key.as_slice());
        } else {
            self.powers.insert(public_key, voting_power);
        }
        proof {
            let after = self.entries();
            self.powers.lemma_keys_fit();
            assert forall|i: int| 0 <= i < after.len() implies (#[trigger] after[i]).1 > 0 by {
                lemma_entry_in_map(after, i);
                let k = after[i].0;
                if !(voting_power != 0 && k == public_key@) {
                    assert(entries_map(before).contains_key(k));
                    let j = position_of(before, k);
                    lemma_entry_in_map(before, j);
                }
            }
        }
    }

    /// The set that a list of validators gives, taken in order: a later entry overrides an
    /// earlier one with the same key, and one without power leaves no entry.
    pub fn from_validators(list: &Vec<Validator>) -> (r: Self)
        ensures
            r.wf(),
            r@ == collected(validator_views(list@)),
    {
        let mut set = ValidatorSet::new();
        let ghost views = validator_views(list@);
        let mut i: usize = 0;
        while i < list.len()
            invariant
                i <= list.len(),
                set.wf(),
                views == validator_views(list@),
                set@ == collected(views.take(i as int)),
            decreases list.len() - i,
        {
            let key = copy_bytes(list[i].public_key.as_slice());
            set.insert(key, list[i].voting_power);
            i += 1;
            proof {
                assert(views.take(i as int).drop_last() =~= views.take(i - 1));
                assert(views.take(i as int).last() == list@[i - 1]@);
            }
        }
        proof {
            assert(views.take(list.len() as int) =~= views);
        }
        set
    }

    /// The set whose canonical order is `list` as it stands, or `None` where `list` is not
    /// in canonical order or holds a validator without power.
    pub fn from_canonical(list: &Vec<Validator>) -> (r: Option<Self>)
        ensures
            match r {
                Some(set) => set.wf() && set.entries() == validator_views(list@),
                None => !valid_entries(validator_views(list@)),
            },
    {
        let mut set = ValidatorSet::new();
        let ghost views = validator_views(list@);
        let mut i: usize = 0;
        while i < list.len()
            invariant
                i <= list.len(),
                set.wf(),
                views == validator_views(list@),
                set.entries() == views.take(i as int),
            decreases list.len() - i,
        {
            let entry = &list[i];
            if entry.voting_power == 0 {
                assert(views[i as int].1 == 0);
                return None;
            }
            if i > 0 {
                match rank_bytes(list[i - 1].public_key.as_slice(), entry.public_key.as_slice()) {
                    Rank::Before => {},
                    _ => {
                        assert(!lex_lt(views[i - 1].0, views[i as int].0));
                        return None;
                    },
                }
            }
            let ghost before = set.entries();
            set.insert(copy_bytes(entry.public_key.as_slice()), entry.voting_power);
            proof {
                let e = views[i as int];
                assert forall|j: int| 0 <= j < i implies lex_lt((#[trigger] before[j]).0, e.0) by {
                    if j < i - 1 {
                        assert(lex_lt(before[j].0, before[i - 1].0));
                        lemma_lex_transitive(before[j].0, before[i - 1].0, e.0);
                    }
                }
                lemma_insert_entry(before, i as int, e.0, e.1);
                assert(before.insert(i as int, e) =~= views.take(i + 1));
                lemma_canonical_unique(set.entries(), views.take(i + 1));
            }
            i += 1;
        }
        proof {
            assert(views.take(list.len() as int) =~= views);
        }
        Some(set)
    }

    /// The validators in canonical order.
    pub fn to_validators(&self) -> (r: Vec<Validator>)
        ensures
            validator_views(r@) == self.entries(),
    {
        let mut out: Vec<Validator> = Vec::new();
        let mut i: usize = 0;
        while i < self.len()
            invariant
                i <= self.entries().len(),
                out@.len() == i,
                validator_views(out@) == self.entries().take(i as int),
            decreases self.entries().len() - i,
        {
            let ghost before = out@;
            let public_key = copy_bytes(self.key_at(i).as_slice());
            let voting_power: u64 = self.power_at(i);
            out.push(Validator { public_key, voting_power });
            i += 1;
            proof {
                let now = validator_views(out@);
                let want = self.entries().take(i as int);
                assert forall|j: int| 0 <= j < now.len() implies now[j] == want[j] by {
                    if j < i - 1 {
                        assert(out@[j] == before[j]);
                        assert(validator_views(before)[j] == self.entries().take(i - 1)[j]);
                    }
                }
                assert(now =~= want);
            }
        }
        assert(self.entries().take(self.entries().len() as int) =~= self.entries());
        out
    }
}

} // verus!
