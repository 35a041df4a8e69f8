//! The custody script: a Bitcoin witness script that can be redeemed by signatures of
//! signatories whose combined voting power reaches the threshold.
//!
//! For the signatories `s_0, s_1, ..` in custody order and the depositor key `d` the script
//! reads
//!
//! ```text
//! <d> DROP
//! <key of s_0> CHECKSIG IF <power of s_0> ELSE 0 ENDIF
//! SWAP <key of s_i> CHECKSIG IF <power of s_i> ADD ENDIF          (for each i > 0)
//! <threshold> GREATERTHANOREQUAL
//! ```
//!
//! The witness supplies one signature, or an empty item, for each signatory. The script adds
//! up the power of those whose signature is good and succeeds when the sum reaches the
//! threshold.

use crate::buffer::append;
use crate::validators::{validator_views, Validator};
use vstd::prelude::*;

verus! {

/// Pushes the empty item, which counts as the number zero.
pub const OP_0: u8 = 0x00;

/// The next byte is the length of the data that is pushed.
pub const OP_PUSHDATA1: u8 = 0x4c;

/// The next two bytes are the length of the data that is pushed, low byte first.
pub const OP_PUSHDATA2: u8 = 0x4d;

/// One below the opcode that pushes the number one; the opcodes for the numbers up to
/// sixteen follow one another.
pub const OP_RESERVED: u8 = 0x50;

/// Runs the following operations where the top item is true.
pub const OP_IF: u8 = 0x63;

/// Runs the following operations where those after the matching `OP_IF` were not run.
pub const OP_ELSE: u8 = 0x67;

/// Ends a conditional.
pub const OP_ENDIF: u8 = 0x68;

/// Drops the top item.
pub const OP_DROP: u8 = 0x75;

/// Swaps the two top items.
pub const OP_SWAP: u8 = 0x7c;

/// Replaces the two top items by their sum.
pub const OP_ADD: u8 = 0x93;

/// Replaces the two top items by one, if the second is at least the top, and zero otherwise.
pub const OP_GREATERTHANOREQUAL: u8 = 0xa2;

/// Replaces a signature and a public key by whether the signature is good.
pub const OP_CHECKSIG: u8 = 0xac;

/// The longest item that a script may push: longer keys cannot stand in a script.
pub const MAX_PUSH_LEN: usize = 520;

/// The largest total voting power that a script can add up: script arithmetic works on
/// numbers of at most four bytes.
pub const MAX_TOTAL_POWER: u64 = 0x7fff_ffff;

/// The share of the total voting power that has to sign, as a fraction.
pub const THRESHOLD_NUMERATOR: u64 = 2;

pub const THRESHOLD_DENOMINATOR: u64 = 3;

/// The script bytes that push `data`, for data of at most `MAX_PUSH_LEN` bytes: the length
/// in the shortest of the three forms that hold it, then the data.
pub open spec fn script_data_push(data: Seq<u8>) -> Seq<u8> {
    if data.len() < OP_PUSHDATA1 {
        seq![data.len() as u8] + data
    } else if data.len() < 0x100 {
        seq![OP_PUSHDATA1, data.len() as u8] + data
    } else {
        seq![OP_PUSHDATA2, (data.len() % 0x100) as u8, (data.len() / 0x100) as u8] + data
    }
}

/// A number above zero as a script holds it: the bytes of the number, lowest first, and
/// after them a zero byte where the highest would otherwise read as a sign.
pub open spec fn script_number_bytes(n: nat) -> Seq<u8>
    decreases n,
{
    if n <= 0xff {
        if n >= 0x80 {
            seq![n as u8, 0x00u8]
        } else {
            seq![n as u8]
        }
    } else {
        seq![(n % 0x100) as u8] + script_number_bytes(n / 0x100)
    }
}

/// The script bytes that push the number `n`, for a number that is not negative: the
/// numbers up to sixteen have opcodes of their own, and a larger one is pushed as data.
pub open spec fn script_int_push(n: i64) -> Seq<u8> {
    if n == 0 {
        seq![OP_0]
    } else if n <= 16 {
        seq![(OP_RESERVED + n) as u8]
    } else {
        script_data_push(script_number_bytes(n as nat))
    }
}

/// Calls `bitcoin::script::Builder::push_slice` on an empty builder and hands out the
/// builder's bytes. The contract states the bytes that the builder writes for data of less
/// than 76, less than 256 and less than 65536 bytes. The data is limited to what a script
/// may push, far below the length at which the builder gives up.
#[verifier::external_body]
fn push_data(data: &[u8]) -> (r: Vec<u8>)
    requires
        data@.len() <= MAX_PUSH_LEN,
    ensures
        r@ == script_data_push(data@),
{
    let item: &bitcoin::script::PushBytes = data.try_into().unwrap();
    bitcoin::script::Builder::new().push_slice(item).into_bytes()
}

/// Calls `bitcoin::script::Builder::push_int` on an empty builder and hands out the builder's
/// bytes. The contract states the bytes that the builder writes for a number that is not
/// negative: the opcode of zero, the opcode of a number up to sixteen, or the push of the
/// number's bytes.
#[verifier::external_body]
fn push_number(n: i64) -> (r: Vec<u8>)
    requires
        0 <= n <= MAX_TOTAL_POWER,
    ensures
        r@ == script_int_push(n),
{
    bitcoin::script::Builder::new().push_int(n).into_bytes()
}

/// The least power that reaches the threshold share of `total`: two thirds, rounded up.
pub open spec fn threshold(total: int) -> int {
    (total * THRESHOLD_NUMERATOR as int + THRESHOLD_DENOMINATOR as int - 1)
        / THRESHOLD_DENOMINATOR as int
}

/// The least power that reaches the threshold share of `total`.
pub fn threshold_of(total: u64) -> (t: u64)
    requires
        total <= MAX_TOTAL_POWER,
    ensures
        t == threshold(total as int),
        t <= total,
        total > 0 ==> t > 0,
{
    (total * THRESHOLD_NUMERATOR + THRESHOLD_DENOMINATOR - 1) / THRESHOLD_DENOMINATOR
}

/// The clause of one signatory, given the bytes that push its key and its power. The clause
/// of the first signatory starts the sum; each later one adds to it.
pub open spec fn clause_bytes(key_push: Seq<u8>, power_push: Seq<u8>, first: bool) -> Seq<u8> {
    if first {
        key_push + seq![OP_CHECKSIG, OP_IF] + power_push + seq![OP_ELSE, OP_0, OP_ENDIF]
    } else {
        seq![OP_SWAP] + key_push + seq![OP_CHECKSIG, OP_IF] + power_push + seq![OP_ADD, OP_ENDIF]
    }
}

/// The whole script, given the bytes that push the depositor's key, the clauses of the
/// signatories one after another, and the bytes that push the threshold.
pub open spec fn script_bytes(depositor_push: Seq<u8>, clauses: Seq<u8>, threshold_push: Seq<u8>) -> Seq<
    u8,
> {
    depositor_push + seq![OP_DROP] + clauses + threshold_push + seq![OP_GREATERTHANOREQUAL]
}

/// Writes the clause of one signatory from the bytes that push its key and its power.
pub fn assemble_clause(key_push: &[u8], power_push: &[u8], first: bool) -> (r: Vec<u8>)
    ensures
        r@ == clause_bytes(key_push@, power_push@, first),
{
    let mut out: Vec<u8> = Vec::new();
    if !first {
        out.push(OP_SWAP);
    }
    append(&mut out, key_push);
    out.push(OP_CHECKSIG);
    out.push(OP_IF);
    append(&mut out, power_push);
    if first {
        out.push(OP_ELSE);
        out.push(OP_0);
    } else {
        out.push(OP_ADD);
    }
    out.push(OP_ENDIF);
    assert(out@ =~= clause_bytes(key_push@, power_push@, first));
    out
}

/// Writes the whole script from its parts.
pub fn assemble_script(depositor_push: &[u8], clauses: &[u8], threshold_push: &[u8]) -> (r: Vec<u8>)
    ensures
        r@ == script_bytes(depositor_push@, clauses@, threshold_push@),
{
    let mut out: Vec<u8> = Vec::new();
    append(&mut out, depositor_push);
    out.push(OP_DROP);
    append(&mut out, clauses);
    append(&mut out, threshold_push);
    out.push(OP_GREATERTHANOREQUAL);
    assert(out@ =~= script_bytes(depositor_push@, clauses@, threshold_push@));
    out
}

/// The sum of the voting powers of `entries`.
pub open spec fn total_power(entries: Seq<(Seq<u8>, u64)>) -> int
    decreases entries.len(),
{
    if entries.len() == 0 {
        0
    } else {
        total_power(entries.drop_last()) + entries.last().1
    }
}

/// The clauses of `entries`, one after another.
pub open spec fn clauses_of(entries: Seq<(Seq<u8>, u64)>) -> Seq<u8>
    decreases entries.len(),
{
    if entries.len() == 0 {
        Seq::empty()
    } else {
        clauses_of(entries.drop_last()) + clause_bytes(
            script_data_push(entries.last().0),
            script_int_push(entries.last().1 as i64),
            entries.len() == 1,
        )
    }
}

/// The custody script of the signatories `entries` for the depositor key `depositor`.
pub open spec fn custody_script(entries: Seq<(Seq<u8>, u64)>, depositor: Seq<u8>) -> Seq<u8> {
    script_bytes(
        script_data_push(depositor),
        clauses_of(entries),
        script_int_push(threshold(total_power(entries)) as i64),
    )
}

/// Why there is no custody script for some signatories and depositor key.
#[derive(Clone, Copy, Debug, PartialEq, Eq, Structural)]
pub enum ScriptError {
    /// There is no signatory.
    NoSignatories,
    /// The depositor's key or a signatory's key is longer than a script may push.
    KeyTooLong,
    /// The total voting power is more than a script can add up.
    PowerTooLarge,
}

/// Some key of `entries` is longer than a script may push.
pub open spec fn has_long_key(entries: Seq<(Seq<u8>, u64)>) -> bool {
    exists|i: int| 0 <= i < entries.len() && (#[trigger] entries[i]).0.len() > MAX_PUSH_LEN
}

/// What stands in the way of a custody script, if anything does. Where several things do,
/// the one named first in `ScriptError` is reported.
pub open spec fn script_obstacle(entries: Seq<(Seq<u8>, u64)>, depositor: Seq<u8>) -> Option<
    ScriptError,
> {
    if entries.len() == 0 {
        Some(ScriptError::NoSignatories)
    } else if depositor.len() > MAX_PUSH_LEN || has_long_key(entries) {
        Some(ScriptError::KeyTooLong)
    } else if total_power(entries) > MAX_TOTAL_POWER {
        Some(ScriptError::PowerTooLarge)
    } else {
        None
    }
}

/// The sum of the powers of a part of the entries is no more than that of all of them.
pub proof fn lemma_total_power_prefix(entries: Seq<(Seq<u8>, u64)>, k: int)
    requires
        0 <= k <= entries.len(),
    ensures
        0 <= total_power(entries.take(k)) <= total_power(entries),
    decreases entries.len() - k,
{
    if k == entries.len() {
        assert(entries.take(k) =~= entries);
        lemma_total_power_nonnegative(entries);
    } else {
        lemma_total_power_prefix(entries, k + 1);
        assert(entries.take(k + 1).drop_last() =~= entries.take(k));
        lemma_total_power_nonnegative(entries.take(k));
    }
}

/// A sum of powers is not negative.
pub proof fn lemma_total_power_nonnegative(entries: Seq<(Seq<u8>, u64)>)
    ensures
        0 <= total_power(entries),
    decreases entries.len(),
{
    if entries.len() > 0 {
        lemma_total_power_nonnegative(entries.drop_last());
    }
}

/// Writes the custody script of `signers`, taken in the order given, for the depositor key
/// `depositor`; or says what stands in the way.
pub fn build_custody_script(signers: &Vec<Validator>, depositor: &[u8]) -> (r: Result<
    Vec<u8>,
    ScriptError,
>)
    ensures
        match r {
            Ok(bytes) => script_obstacle(validator_views(signers@), depositor@) is None && bytes@
                == custody_script(validator_views(signers@), depositor@),
            Err(e) => script_obstacle(validator_views(signers@), depositor@) == Some(e),
        },
{
    let ghost entries = validator_views(signers@);
    let n: usize = signers.len();
    if n == 0 {
        return Err(ScriptError::NoSignatories);
    }
    if depositor.len() > MAX_PUSH_LEN {
        return Err(ScriptError::KeyTooLong);
    }
    let mut i: usize = 0;
    while i < n
        invariant
            i <= n,
            n == signers.len(),
            entries == validator_views(signers@),
            forall|j: int| 0 <= j < i ==> (#[trigger] entries[j]).0.len() <= MAX_PUSH_LEN,
        decreases n - i,
    {
        if signers[i].public_key.len() > MAX_PUSH_LEN {
            assert(entries[i as int].0.len() > MAX_PUSH_LEN);
            return Err(ScriptError::KeyTooLong);
        }
        i += 1;
    }
    let mut total: u64 = 0;
    i = 0;
    while i < n
        invariant
            i <= n,
            n == signers.len(),
            entries == validator_views(signers@),
            depositor@.len() <= MAX_PUSH_LEN,
            !has_long_key(entries),
            total == total_power(entries.take(i as int)),
            total <= MAX_TOTAL_POWER,
        decreases n - i,
    {
        let p: u64 = signers[i].voting_power;
        proof {
            assert(entries.take(i + 1).drop_last() =~= entries.take(i as int));
            assert(entries.take(i + 1).last() == entries[i as int]);
            lemma_total_power_prefix(entries, i + 1);
        }
        if p > MAX_TOTAL_POWER - total {
            return Err(ScriptError::PowerTooLarge);
        }
        total = total + p;
        i += 1;
    }
    assert(entries.take(n as int) =~= entries);
    let mut clauses: Vec<u8> = Vec::new();
    i = 0;
    while i < n
        invariant
            i <= n,
            n == signers.len(),
            entries == validator_views(signers@),
            !has_long_key(entries),
            total_power(entries) <= MAX_TOTAL_POWER,
            clauses@ == clauses_of(entries.take(i as int)),
        decreases n - i,
    {
        proof {
            assert(entries.take(i + 1).drop_last() =~= entries.take(i as int));
            assert(entries.take(i + 1).last() == entries[i as int]);
            assert(entries[i as int].0.len() <= MAX_PUSH_LEN);
            lemma_power_within_total(entries, i as int);
        }
        let key_push = push_data(signers[i].public_key.as_slice());
        let power_push = push_number(signers[i].voting_power as i64);
        let clause = assemble_clause(key_push.as_slice(), power_push.as_slice(), i == 0);
        append(&mut clauses, clause.as_slice());
        i += 1;
    }
    assert(entries.take(n as int) =~= entries);
    let depositor_push = push_data(depositor);
    let threshold_push = push_number(threshold_of(total) as i64);
    Ok(assemble_script(depositor_push.as_slice(), clauses.as_slice(), threshold_push.as_slice()))
}

/// No single power is more than the sum of all of them.
pub proof fn lemma_power_within_total(entries: Seq<(Seq<u8>, u64)>, i: int)
    requires
        0 <= i < entries.len(),
    ensures
        entries[i].1 <= total_power(entries),
    decreases entries.len(),
{
    lemma_total_power_nonnegative(entries.drop_last());
    if i < entries.len() - 1 {
        lemma_power_within_total(entries.drop_last(), i);
    }
}

} // verus!
