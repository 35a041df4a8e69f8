//! The lexicographic order on byte strings, and sequences that ascend under a strict order.
//!
//! Every byte string that is persisted or hashed by more than one node is laid out in this
//! order, so that independent nodes arrive at the same bytes.

use vstd::prelude::*;

verus! {

/// `a` and `b` agree on their first `i` bytes; at position `i` either `a` has ended while `b`
/// goes on, or `a` holds the smaller byte.
pub open spec fn splits_at(a: Seq<u8>, b: Seq<u8>, i: int) -> bool {
    &&& 0 <= i <= a.len()
    &&& i < b.len()
    &&& forall|j: int| 0 <= j < i ==> a[j] == b[j]
    &&& (i < a.len() ==> a[i] < b[i])
}

/// The strict lexicographic order on byte strings: `a` comes before `b`.
pub open spec fn lex_lt(a: Seq<u8>, b: Seq<u8>) -> bool {
    exists|i: int| splits_at(a, b, i)
}

/// No byte string comes before itself.
pub proof fn lemma_lex_irreflexive(a: Seq<u8>)
    ensures
        !lex_lt(a, a),
{
    assert forall|i: int| !splits_at(a, a, i) by {}
}

/// Of two byte strings at most one comes before the other.
pub proof fn lemma_lex_asymmetric(a: Seq<u8>, b: Seq<u8>)
    requires
        lex_lt(a, b),
    ensures
        !lex_lt(b, a),
{
    let i = choose|i: int| splits_at(a, b, i);
    assert forall|j: int| !splits_at(b, a, j) by {
        if splits_at(b, a, j) {
            if j < i {
                assert(a[j] == b[j]);
            } else if i < j {
                assert(b[i] == a[i]);
            }
        }
    }
}

/// The order is transitive.
pub proof fn lemma_lex_transitive(a: Seq<u8>, b: Seq<u8>, c: Seq<u8>)
    requires
        lex_lt(a, b),
        lex_lt(b, c),
    ensures
        lex_lt(a, c),
{
    let i = choose|i: int| splits_at(a, b, i);
    let j = choose|j: int| splits_at(b, c, j);
    let k = if i <= j { i } else { j };
    assert forall|m: int| 0 <= m < k implies a[m] == c[m] by {
        assert(a[m] == b[m]);
        assert(b[m] == c[m]);
    }
    if i < j {
        assert(b[i] == c[i]);
    }
    assert(splits_at(a, c, k));
}

/// Two byte strings that agree on their first `k` bytes are equal, or one comes before the
/// other.
proof fn lemma_lex_connected_from(a: Seq<u8>, b: Seq<u8>, k: int)
    requires
        0 <= k <= a.len(),
        k <= b.len(),
        forall|j: int| 0 <= j < k ==> a[j] == b[j],
    ensures
        a == b || lex_lt(a, b) || lex_lt(b, a),
    decreases a.len() - k,
{
    if k == a.len() {
        if k == b.len() {
            assert(a =~= b);
        } else {
            assert(splits_at(a, b, k));
        }
    } else if k == b.len() {
        assert(splits_at(b, a, k));
    } else if a[k] < b[k] {
        assert(splits_at(a, b, k));
    } else if b[k] < a[k] {
        assert(splits_at(b, a, k));
    } else {
        lemma_lex_connected_from(a, b, k + 1);
    }
}

/// The order is total: two different byte strings are ordered one way or the other.
pub proof fn lemma_lex_connected(a: Seq<u8>, b: Seq<u8>)
    ensures
        a == b || lex_lt(a, b) || lex_lt(b, a),
{
    lemma_lex_connected_from(a, b, 0);
}

/// Where one byte string stands relative to another.
#[derive(Clone, Copy, Debug, PartialEq, Eq)]
pub enum Rank {
    Before,
    Same,
    After,
}

/// Ranks `a` against `b` in the lexicographic order.
pub fn rank_bytes(a: &[u8], b: &[u8]) -> (r: Rank)
    ensures
        r is Before <==> lex_lt(a@, b@),
        r is Same <==> a@ == b@,
        r is After <==> lex_lt(b@, a@),
{
    let mut i: usize = 0;
    while i < a.len() && i < b.len()
        invariant
            i <= a.len(),
            i <= b.len(),
            forall|j: int| 0 <= j < i ==> a@[j] == b@[j],
        decreases a.len() - i,
    {
        if a[i] < b[i] {
            proof {
                assert(splits_at(a@, b@, i as int));
                lemma_lex_asymmetric(a@, b@);
                lemma_lex_irreflexive(a@);
            }
            return Rank::Before;
        }
        if b[i] < a[i] {
            proof {
                assert(splits_at(b@, a@, i as int));
                lemma_lex_asymmetric(b@, a@);
                lemma_lex_irreflexive(a@);
            }
            return Rank::After;
        }
        i += 1;
    }
    if i < b.len() {
        proof {
            assert(splits_at(a@, b@, i as int));
            lemma_lex_asymmetric(a@, b@);
            lemma_lex_irreflexive(a@);
        }
        Rank::Before
    } else if i < a.len() {
        proof {
            assert(splits_at(b@, a@, i as int));
            lemma_lex_asymmetric(b@, a@);
            lemma_lex_irreflexive(a@);
        }
        Rank::After
    } else {
        proof {
            assert(a@ =~= b@);
            lemma_lex_irreflexive(a@);
        }
        Rank::Same
    }
}

/// `lt` is a strict order: nothing comes before itself, and the relation is transitive.
pub open spec fn strict_order<T>(lt: spec_fn(T, T) -> bool) -> bool {
    &&& forall|x: T| !#[trigger] lt(x, x)
    &&& forall|x: T, y: T, z: T| #[trigger] lt(x, y) && #[trigger] lt(y, z) ==> lt(x, z)
}

/// Every item of `s` comes before every later item.
pub open spec fn ascending<T>(s: Seq<T>, lt: spec_fn(T, T) -> bool) -> bool {
    forall|i: int, j: int| 0 <= i < j < s.len() ==> lt(#[trigger] s[i], #[trigger] s[j])
}

/// A sequence that ascends under a strict order is determined by the items it holds: two such
/// sequences with the same items are the same sequence.
pub proof fn lemma_ascending_unique<T>(a: Seq<T>, b: Seq<T>, lt: spec_fn(T, T) -> bool)
    requires
        strict_order(lt),
        ascending(a, lt),
        ascending(b, lt),
        forall|x: T| a.contains(x) <==> b.contains(x),
    ensures
        a == b,
    decreases a.len(),
{
    if a.len() == 0 {
        if b.len() > 0 {
            assert(b.contains(b[0]));
            assert(a.contains(b[0]));
        }
        assert(a =~= b);
    } else {
        assert(a.contains(a[0]));
        assert(b.contains(a[0]));
        let j = choose|j: int| 0 <= j < b.len() && b[j] == a[0];
        assert(b.contains(b[0]));
        assert(a.contains(b[0]));
        let i = choose|i: int| 0 <= i < a.len() && a[i] == b[0];
        if j > 0 && i > 0 {
            assert(lt(b[0], b[j]));
            assert(lt(a[0], a[i]));
            assert(lt(a[0], a[0]));
        }
        assert(a[0] == b[0]);
        let ta = a.drop_first();
        let tb = b.drop_first();
        assert forall|x: T| ta.contains(x) <==> tb.contains(x) by {
            if ta.contains(x) {
                let m = choose|m: int| 0 <= m < ta.len() && ta[m] == x;
                assert(a[m + 1] == x);
                assert(lt(a[0], a[m + 1]));
                assert(a.contains(x));
                let n = choose|n: int| 0 <= n < b.len() && b[n] == x;
                assert(n > 0);
                assert(tb[n - 1] == x);
            }
            if tb.contains(x) {
                let m = choose|m: int| 0 <= m < tb.len() && tb[m] == x;
                assert(b[m + 1] == x);
                assert(lt(b[0], b[m + 1]));
                assert(b.contains(x));
                let n = choose|n: int| 0 <= n < a.len() && a[n] == x;
                assert(n > 0);
                assert(ta[n - 1] == x);
            }
        }
        assert forall|p: int, q: int| 0 <= p < q < ta.len() implies lt(
            #[trigger] ta[p],
            #[trigger] ta[q],
        ) by {
            assert(lt(a[p + 1], a[q + 1]));
        }
        assert forall|p: int, q: int| 0 <= p < q < tb.len() implies lt(
            #[trigger] tb[p],
            #[trigger] tb[q],
        ) by {
            assert(lt(b[p + 1], b[q + 1]));
        }
        lemma_ascending_unique(ta, tb, lt);
        assert(a =~= seq![a[0]] + ta);
        assert(b =~= seq![b[0]] + tb);
    }
}

} // verus!
