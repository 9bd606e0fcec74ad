//! The order in which unspent-output keys follow one another.

use vstd::prelude::*;

verus! {

/// Whether `a` sorts before `b` as a byte string: at the first index where
/// they differ `a` holds the smaller byte, or `a` ends there and `b` goes on.
pub open spec fn bytes_precede(a: Seq<u8>, b: Seq<u8>) -> bool {
    ||| exists|i: int|
        0 <= i < a.len() && i < b.len() && #[trigger] a.take(i) == b.take(i) && a[i] < b[i]
    ||| a.len() < b.len() && a == b.take(a.len() as int)
}

/// Whether the output `(txid_a, vout_a)` sorts before `(txid_b, vout_b)`: by
/// transaction id first, by output index where the ids are equal.
pub open spec fn entry_precedes(txid_a: Seq<u8>, vout_a: u64, txid_b: Seq<u8>, vout_b: u64) -> bool {
    bytes_precede(txid_a, txid_b) || (txid_a == txid_b && vout_a < vout_b)
}

/// The first index from `from` on at which `a` and `b` differ or one of them
/// ends.
pub open spec fn first_difference(a: Seq<u8>, b: Seq<u8>, from: nat) -> nat
    decreases a.len() - from,
{
    if from >= a.len() || from >= b.len() || a[from as int] != b[from as int] {
        from
    } else {
        first_difference(a, b, from + 1)
    }
}

/// Whether `a` and `b` hold the same bytes before index `r` and part ways
/// at it: they differ there, or one of them ends.
pub open spec fn part_at(a: Seq<u8>, b: Seq<u8>, r: int) -> bool {
    &&& 0 <= r <= a.len()
    &&& r <= b.len()
    &&& forall|j: int| 0 <= j < r ==> a[j] == b[j]
    &&& r == a.len() || r == b.len() || a[r] != b[r]
}

/// Where one value stands relative to another.
#[derive(Clone, Copy, Debug, PartialEq, Eq, Structural)]
pub enum Rank {
    Before,
    Same,
    After,
}

/// Two strings that agree up to `from` part ways at their first difference
/// from there on.
pub proof fn lemma_first_difference_parts(a: Seq<u8>, b: Seq<u8>, from: nat)
    requires
        from <= a.len(),
        from <= b.len(),
        forall|j: int| 0 <= j < from ==> a[j] == b[j],
    ensures
        part_at(a, b, first_difference(a, b, from) as int),
        from <= first_difference(a, b, from),
    decreases a.len() - from,
{
    if from >= a.len() || from >= b.len() || a[from as int] != b[from as int] {
    } else {
        lemma_first_difference_parts(a, b, from + 1);
    }
}

/// The index at which two strings part ways decides their order: the one
/// with the smaller byte there, or the one that ends there alone, comes
/// first, and they are equal exactly when both end there.
pub proof fn lemma_decided_at(a: Seq<u8>, b: Seq<u8>, r: int)
    requires
        part_at(a, b, r),
    ensures
        bytes_precede(a, b) == (if r < a.len() && r < b.len() {
            a[r] < b[r]
        } else {
            r < b.len()
        }),
        (a == b) == (r == a.len() && r == b.len()),
{
    if r < a.len() && r < b.len() {
        if a[r] < b[r] {
            assert(a.take(r) =~= b.take(r));
        } else {
            assert forall|j: int|
                0 <= j < a.len() && j < b.len() && #[trigger] a.take(j) == b.take(
                    j,
                ) implies !(a[j] < b[j]) by {
                if j > r {
                    assert(a.take(j)[r] == a[r]);
                    assert(b.take(j)[r] == b[r]);
                }
            }
            if a.len() < b.len() && a == b.take(a.len() as int) {
                assert(b.take(a.len() as int)[r] == b[r]);
            }
        }
    } else {
        if r < b.len() {
            assert(a =~= b.take(a.len() as int));
        } else if r < a.len() {
            assert forall|j: int|
                0 <= j < a.len() && j < b.len() && #[trigger] a.take(j) == b.take(
                    j,
                ) implies !(a[j] < b[j]) by {}
        } else {
            assert(a =~= b);
        }
    }
}

/// No byte string sorts before itself.
pub proof fn lemma_bytes_precede_irreflexive(a: Seq<u8>)
    ensures
        !bytes_precede(a, a),
{
}

/// Of two byte strings exactly one thing holds: the first sorts before the
/// second, they are equal, or the second sorts before the first.
pub proof fn lemma_bytes_precede_trichotomy(a: Seq<u8>, b: Seq<u8>)
    ensures
        bytes_precede(a, b) || a == b || bytes_precede(b, a),
        !(bytes_precede(a, b) && a == b),
        !(bytes_precede(b, a) && a == b),
        !(bytes_precede(a, b) && bytes_precede(b, a)),
{
    let r = first_difference(a, b, 0) as int;
    lemma_first_difference_parts(a, b, 0);
    lemma_decided_at(a, b, r);
    lemma_decided_at(b, a, r);
}

/// What sorts before a string that sorts before a third sorts before the
/// third.
pub proof fn lemma_bytes_precede_transitive(a: Seq<u8>, b: Seq<u8>, c: Seq<u8>)
    requires
        bytes_precede(a, b),
        bytes_precede(b, c),
    ensures
        bytes_precede(a, c),
{
    let r1 = first_difference(a, b, 0) as int;
    let r2 = first_difference(b, c, 0) as int;
    lemma_first_difference_parts(a, b, 0);
    lemma_first_difference_parts(b, c, 0);
    lemma_decided_at(a, b, r1);
    lemma_decided_at(b, c, r2);
    let r = if r1 <= r2 {
        r1
    } else {
        r2
    };
    assert(part_at(a, c, r));
    lemma_decided_at(a, c, r);
}

/// No output sorts before itself: a repeated key is out of order.
pub proof fn lemma_entry_precedes_irreflexive(txid: Seq<u8>, vout: u64)
    ensures
        !entry_precedes(txid, vout, txid, vout),
{
}

/// Of two outputs exactly one thing holds: the first sorts before the
/// second, they are the same, or the second sorts before the first.
pub proof fn lemma_entry_precedes_trichotomy(
    txid_a: Seq<u8>,
    vout_a: u64,
    txid_b: Seq<u8>,
    vout_b: u64,
)
    ensures
        entry_precedes(txid_a, vout_a, txid_b, vout_b) || (txid_a == txid_b && vout_a == vout_b)
            || entry_precedes(txid_b, vout_b, txid_a, vout_a),
        !(entry_precedes(txid_a, vout_a, txid_b, vout_b) && entry_precedes(
            txid_b,
            vout_b,
            txid_a,
            vout_a,
        )),
{
    lemma_bytes_precede_trichotomy(txid_a, txid_b);
}

/// The order of outputs is transitive: along a scan in which each key sorts
/// after the one before it, every key sorts after all that came earlier.
pub proof fn lemma_entry_precedes_transitive(
    txid_a: Seq<u8>,
    vout_a: u64,
    txid_b: Seq<u8>,
    vout_b: u64,
    txid_c: Seq<u8>,
    vout_c: u64,
)
    requires
        entry_precedes(txid_a, vout_a, txid_b, vout_b),
        entry_precedes(txid_b, vout_b, txid_c, vout_c),
    ensures
        entry_precedes(txid_a, vout_a, txid_c, vout_c),
{
    if bytes_precede(txid_a, txid_b) && bytes_precede(txid_b, txid_c) {
        lemma_bytes_precede_transitive(txid_a, txid_b, txid_c);
    }
}

/// Ranks the byte string `a` against `b`.
pub fn rank_bytes(a: &[u8], b: &[u8]) -> (rank: Rank)
    ensures
        rank == Rank::Before <==> bytes_precede(a@, b@),
        rank == Rank::Same <==> a@ == b@,
        rank == Rank::After <==> bytes_precede(b@, a@),
{
    let mut i: usize = 0;
    while i < a.len() && i < b.len()
        invariant
            i <= a@.len(),
            i <= b@.len(),
            forall|j: int| 0 <= j < i ==> a@[j] == b@[j],
        decreases a@.len() - i,
    {
        if a[i] != b[i] {
            proof {
                lemma_decided_at(a@, b@, i as int);
                lemma_decided_at(b@, a@, i as int);
            }
            if a[i] < b[i] {
                return Rank::Before;
            } else {
                return Rank::After;
            }
        }
        i = i + 1;
    }
    proof {
        lemma_decided_at(a@, b@, i as int);
        lemma_decided_at(b@, a@, i as int);
    }
    if a.len() < b.len() {
        Rank::Before
    } else if a.len() == b.len() {
        Rank::Same
    } else {
        Rank::After
    }
}

/// Ranks the output `(txid_a, vout_a)` against `(txid_b, vout_b)`.
pub fn rank_entries(txid_a: &[u8; 32], vout_a: u64, txid_b: &[u8; 32], vout_b: u64) -> (rank: Rank)
    ensures
        rank == Rank::Before <==> entry_precedes(txid_a@, vout_a, txid_b@, vout_b),
        rank == Rank::Same <==> txid_a@ == txid_b@ && vout_a == vout_b,
        rank == Rank::After <==> entry_precedes(txid_b@, vout_b, txid_a@, vout_a),
{
    match rank_bytes(txid_a.as_slice(), txid_b.as_slice()) {
        Rank::Before => Rank::Before,
        Rank::After => Rank::After,
        Rank::Same => {
            if vout_a < vout_b {
                Rank::Before
            } else if vout_a == vout_b {
                Rank::Same
            } else {
                Rank::After
            }
        },
    }
}

} // verus!
