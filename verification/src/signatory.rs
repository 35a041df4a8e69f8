//! The signatory set: the validators as custodians of the pegged asset, in the one order
//! in which every node lists them, and the address that they control.

use crate::buffer::copy_bytes;
use crate::bytemap::{lemma_entry_in_map, position_of};
use crate::order::{
    ascending, lemma_ascending_unique, lemma_lex_asymmetric, lemma_lex_connected,
    lemma_lex_irreflexive, lemma_lex_transitive, lex_lt, rank_bytes, Rank,
};
use crate::script::{build_custody_script, custody_script, script_obstacle, ScriptError};
use crate::validators::{validator_views, Validator, ValidatorSet};
use vstd::prelude::*;

verus! {

/// The custody order: the signatory with more voting power comes first, and of two with
/// the same power the one with the smaller public key.
pub open spec fn precedes(a: (Seq<u8>, u64), b: (Seq<u8>, u64)) -> bool {
    a.1 > b.1 || (a.1 == b.1 && lex_lt(a.0, b.0))
}

/// Every signatory of `s` comes before every later one in the custody order.
pub open spec fn in_custody_order(s: Seq<(Seq<u8>, u64)>) -> bool {
    forall|i: int, j: int| 0 <= i < j < s.len() ==> precedes(#[trigger] s[i], #[trigger] s[j])
}

/// `s` lists the validators of `m`, and nothing else, in custody order.
pub open spec fn lists_validators(s: Seq<(Seq<u8>, u64)>, m: Map<Seq<u8>, u64>) -> bool {
    &&& in_custody_order(s)
    &&& forall|e: (Seq<u8>, u64)| s.contains(e) <==> m.contains_pair(e.0, e.1)
}

/// No signatory comes before itself.
pub proof fn lemma_precedes_irreflexive(a: (Seq<u8>, u64))
    ensures
        !precedes(a, a),
{
    lemma_lex_irreflexive(a.0);
}

/// The custody order is transitive.
pub proof fn lemma_precedes_transitive(a: (Seq<u8>, u64), b: (Seq<u8>, u64), c: (Seq<u8>, u64))
    requires
        precedes(a, b),
        precedes(b, c),
    ensures
        precedes(a, c),
{
    if a.1 == b.1 && b.1 == c.1 {
        lemma_lex_transitive(a.0, b.0, c.0);
    }
}

/// The custody order is total: of two different signatories one comes before the other.
pub proof fn lemma_precedes_connected(a: (Seq<u8>, u64), b: (Seq<u8>, u64))
    ensures
        a == b || precedes(a, b) || precedes(b, a),
{
    lemma_lex_connected(a.0, b.0);
}

/// The order of a list in custody order is determined by what it lists: two such lists of
/// the same validators are the same list, entry for entry.
pub proof fn lemma_custody_order_unique(
    a: Seq<(Seq<u8>, u64)>,
    b: Seq<(Seq<u8>, u64)>,
    m: Map<Seq<u8>, u64>,
)
    requires
        lists_validators(a, m),
        lists_validators(b, m),
    ensures
        a == b,
{
    let lt = |x: (Seq<u8>, u64), y: (Seq<u8>, u64)| precedes(x, y);
    assert forall|x: (Seq<u8>, u64)| !#[trigger] lt(x, x) by {
        lemma_precedes_irreflexive(x);
    }
    assert forall|x: (Seq<u8>, u64), y: (Seq<u8>, u64), z: (Seq<u8>, u64)| #[trigger]
        lt(x, y) && #[trigger] lt(y, z) implies lt(x, z) by {
        lemma_precedes_transitive(x, y, z);
    }
    assert(ascending(a, lt));
    assert(ascending(b, lt));
    lemma_ascending_unique(a, b, lt);
}

/// Of two signatories with the same voting power the one with the smaller public key
/// stands first, wherever the two stand in the list.
pub proof fn lemma_tie_break(s: Seq<(Seq<u8>, u64)>, i: int, j: int)
    requires
        in_custody_order(s),
        0 <= i < s.len(),
        0 <= j < s.len(),
        s[i].1 == s[j].1,
        lex_lt(s[i].0, s[j].0),
    ensures
        i < j,
{
    lemma_lex_irreflexive(s[i].0);
    if j < i {
        assert(precedes(s[j], s[i]));
        lemma_lex_asymmetric(s[i].0, s[j].0);
    }
}

/// The Bitcoin network for which an address is made.
#[derive(Clone, Copy, Debug, PartialEq, Eq, Structural)]
pub enum Network {
    Mainnet,
    Testnet,
}

/// The text of the pay-to-witness-script-hash address of the script `script`, on the main
/// network or on the test network, as `bitcoin::Address::p2wsh` gives it.
pub uninterp spec fn p2wsh_address_text(script: Seq<u8>, mainnet: bool) -> Seq<char>;

/// Calls `bitcoin::Address::p2wsh` on the script and the network, and writes the address
/// out as text. The contract claims that the text depends on the script's bytes and on the
/// network alone.
#[verifier::external_body]
fn p2wsh_address(script: &[u8], network: Network) -> (r: String)
    ensures
        r@ == p2wsh_address_text(script@, network is Mainnet),
{
    let net = match network {
        Network::Mainnet => bitcoin::Network::Bitcoin,
        Network::Testnet => bitcoin::Network::Testnet,
    };
    bitcoin::Address::p2wsh(bitcoin::Script::from_bytes(script), net).to_string()
}

/// The address of a finished custody script on `network`.
pub fn script_address(script: &[u8], network: Network) -> (r: String)
    ensures
        r@ == p2wsh_address_text(script@, network is Mainnet),
{
    p2wsh_address(script, network)
}

/// The validators as signatories, in custody order.
#[derive(Clone, Debug, PartialEq, Eq)]
pub struct SignatorySet {
    signatories: Vec<Validator>,
}

impl View for SignatorySet {
    type V = Seq<(Seq<u8>, u64)>;

    closed spec fn view(&self) -> Seq<(Seq<u8>, u64)> {
        validator_views(self.signatories@)
    }
}

/// Whether the signatory `(a_key, a_power)` comes before `(b_key, b_power)`.
pub fn comes_before(a_key: &[u8], a_power: u64, b_key: &[u8], b_power: u64) -> (r: bool)
    ensures
        r == precedes((a_key@, a_power), (b_key@, b_power)),
{
    if a_power > b_power {
        true
    } else if a_power < b_power {
        false
    } else {
        match rank_bytes(a_key, b_key) {
            Rank::Before => true,
            _ => false,
        }
    }
}

impl SignatorySet {
    /// The signatories are in custody order.
    pub open spec fn wf(&self) -> bool {
        in_custody_order(self@)
    }

    /// The number of signatories.
    pub fn len(&self) -> (n: usize)
        ensures
            n == self@.len(),
    {
        self.signatories.len()
    }

    /// The public key of the signatory at position `i`.
    pub fn key_at(&self, i: usize) -> (k: &Vec<u8>)
        requires
            i < self@.len(),
        ensures
            k@ == self@[i as int].0,
    {
        &self.signatories[i].public_key
    }

    /// The voting power of the signatory at position `i`.
    pub fn power_at(&self, i: usize) -> (p: u64)
        requires
            i < self@.len(),
        ensures
            p == self@[i as int].1,
    {
        self.signatories[i].voting_power
    }

    /// The signatories of a validator set: its validators, each once, in custody order.
    /// The result depends on the mapping alone, not on how the set was built.
    pub fn from_validator_set(validators: &ValidatorSet) -> (r: Self)
        requires
            validators.wf(),
        ensures
            r.wf(),
            lists_validators(r@, validators@),
            r@.len() == validators.entries().len(),
    {
        let ghost entries = validators.entries();
        let mut out: Vec<Validator> = Vec::new();
        let mut i: usize = 0;
        while i < validators.len()
            invariant
                i <= entries.len(),
                entries == validators.entries(),
                validators.wf(),
                out@.len() == i,
                in_custody_order(validator_views(out@)),
                forall|e: (Seq<u8>, u64)|
                    validator_views(out@).contains(e) <==> entries.take(i as int).contains(e),
            decreases entries.len() - i,
        {
            let key = validators.key_at(i);
            let power: u64 = validators.power_at(i);
            let ghost e = entries[i as int];
            let ghost before = validator_views(out@);
            let ghost old_part = entries.take(i as int);
            proof {
                assert forall|x: (Seq<u8>, u64)| before.contains(x) <==> old_part.contains(x) by {}
                if before.contains(e) {
                    let j = choose|j: int|
                        0 <= j < i && #[trigger] entries.take(i as int)[j] == e;
                    assert(lex_lt(entries[j].0, entries[i as int].0));
                    lemma_lex_irreflexive(e.0);
                }
            }
            let mut pos: usize = 0;
            while pos < out.len() && comes_before(
                out[pos].public_key.as_slice(),
                out[pos].voting_power,
                key.as_slice(),
                power,
            )
                invariant
                    pos <= out@.len(),
                    before == validator_views(out@),
                    e == (key@, power),
                    forall|j: int| 0 <= j < pos ==> precedes(#[trigger] before[j], e),
                decreases out@.len() - pos,
            {
                pos += 1;
            }
            proof {
                assert forall|j: int| pos <= j < before.len() implies precedes(
                    e,
                    #[trigger] before[j],
                ) by {
                    assert(before.contains(before[pos as int]));
                    lemma_precedes_connected(e, before[pos as int]);
                    if pos < j {
                        assert(precedes(before[pos as int], before[j]));
                        lemma_precedes_transitive(e, before[pos as int], before[j]);
                    }
                }
            }
            out.insert(pos, Validator { public_key: copy_bytes(key.as_slice()), voting_power: power });
            i += 1;
            proof {
                let after = validator_views(out@);
                assert(after =~= before.insert(pos as int, e));
                assert forall|a: int, b: int| 0 <= a < b < after.len() implies precedes(
                    #[trigger] after[a],
                    #[trigger] after[b],
                ) by {
                    if b < pos {
                        assert(precedes(before[a], before[b]));
                    } else if b == pos {
                        assert(precedes(before[a], e));
                    } else if a < pos {
                        assert(precedes(before[a], e));
                        assert(precedes(e, before[b - 1]));
                        lemma_precedes_transitive(before[a], e, before[b - 1]);
                    } else if a == pos {
                        assert(precedes(e, before[b - 1]));
                    } else {
                        assert(precedes(before[a - 1], before[b - 1]));
                    }
                }
                let new_part = entries.take(i as int);
                assert forall|x: (Seq<u8>, u64)| after.contains(x) <==> new_part.contains(x) by {
                    if after.contains(x) {
                        let a = choose|a: int| 0 <= a < after.len() && after[a] == x;
                        if a == pos {
                            assert(new_part[i - 1] == x);
                        } else {
                            let oa = if a < pos { a } else { a - 1 };
                            assert(before[oa] == x);
                            assert(before.contains(x));
                            let c = choose|c: int| 0 <= c < old_part.len() && old_part[c] == x;
                            assert(new_part[c] == x);
                        }
                    }
                    if new_part.contains(x) {
                        let c = choose|c: int| 0 <= c < new_part.len() && new_part[c] == x;
                        if c == i - 1 {
                            assert(after[pos as int] == x);
                        } else {
                            assert(old_part[c] == x);
                            assert(old_part.contains(x));
                            let a = choose|a: int| 0 <= a < before.len() && before[a] == x;
                            let na = if a < pos { a } else { a + 1 };
                            assert(after[na] == x);
                        }
                    }
                }
            }
        }
        let set = SignatorySet { signatories: out };
        proof {
            assert(entries.take(entries.len() as int) =~= entries);
            assert forall|x: (Seq<u8>, u64)| set@.contains(x) <==> validators@.contains_pair(
                x.0,
                x.1,
            ) by {
                if entries.contains(x) {
                    let c = choose|c: int| 0 <= c < entries.len() && entries[c] == x;
                    lemma_entry_in_map(entries, c);
                }
                if validators@.contains_pair(x.0, x.1) {
                    let c = position_of(entries, x.0);
                    lemma_entry_in_map(entries, c);
                    assert(entries[c] == x);
                }
            }
        }
        set
    }
}

/// The custody script of the signatories for the depositor's public key, or what stands in
/// the way of one.
pub fn output_script(signatories: &SignatorySet, depositor: &[u8]) -> (r: Result<
    Vec<u8>,
    ScriptError,
>)
    ensures
        match r {
            Ok(bytes) => script_obstacle(signatories@, depositor@) is None && bytes@
                == custody_script(signatories@, depositor@),
            Err(e) => script_obstacle(signatories@, depositor@) == Some(e),
        },
{
    build_custody_script(&signatories.signatories, depositor)
}

/// The text of the deposit address of the signatories `entries` for the depositor key
/// `depositor`, where there is a custody script for them.
pub open spec fn deposit_address_text(
    entries: Seq<(Seq<u8>, u64)>,
    depositor: Seq<u8>,
    network: Network,
) -> Seq<char> {
    p2wsh_address_text(custody_script(entries, depositor), network is Mainnet)
}

/// The address to which deposits for the depositor's public key are sent: that of the
/// custody script of the signatories, on `network`. It is a function of the signatories,
/// the key and the network: the same three give the same address, on every call and on
/// every node.
pub fn deposit_address(signatories: &SignatorySet, depositor: &[u8], network: Network) -> (r: Result<
    String,
    ScriptError,
>)
    ensures
        match r {
            Ok(address) => script_obstacle(signatories@, depositor@) is None && address@
                == deposit_address_text(signatories@, depositor@, network),
            Err(e) => script_obstacle(signatories@, depositor@) == Some(e),
        },
{
    match output_script(signatories, depositor) {
        Ok(script) => Ok(script_address(script.as_slice(), network)),
        Err(e) => Err(e),
    }
}

/// Two nodes that hold the same validators list the same signatories in the same order,
/// and so arrive at the same custody script and the same deposit address, however each
/// of them came by its validator set.
pub proof fn lemma_custody_deterministic(
    a: Seq<(Seq<u8>, u64)>,
    b: Seq<(Seq<u8>, u64)>,
    m: Map<Seq<u8>, u64>,
    depositor: Seq<u8>,
    network: Network,
)
    requires
        lists_validators(a, m),
        lists_validators(b, m),
    ensures
        a == b,
        script_obstacle(a, depositor) == script_obstacle(b, depositor),
        custody_script(a, depositor) == custody_script(b, depositor),
        deposit_address_text(a, depositor, network) == deposit_address_text(b, depositor, network),
{
    lemma_custody_order_unique(a, b, m);
}

} // verus!
