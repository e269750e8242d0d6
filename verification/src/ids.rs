//! Fixed-size identifiers: account ids, transaction ids and 32-byte buffers.

use vstd::prelude::*;

verus! {

broadcast use vstd::array::group_array_axioms;

/// Compares two 32-byte arrays.
pub fn bytes32_eq(a: &[u8; 32], b: &[u8; 32]) -> (r: bool)
    ensures
        r == (*a == *b),
{
    let mut i: usize = 0;
    while i < 32
        invariant
            i <= 32,
            forall|j: int| 0 <= j < i ==> a[j] == b[j],
        decreases 32 - i,
    {
        if a[i] != b[i] {
            return false;
        }
        i += 1;
    }
    assert(*a =~= *b);
    true
}

/// `a` comes before `b` in byte-wise lexicographic order: at the first
/// position where they differ, `a` holds the smaller byte.
pub open spec fn bytes32_lt(a: [u8; 32], b: [u8; 32]) -> bool {
    exists|i: int|
        #![trigger a[i], b[i]]
        0 <= i < 32 && a[i] < b[i] && forall|j: int| 0 <= j < i ==> a[j] == b[j]
}

/// Compares two 32-byte arrays in byte-wise lexicographic order.
pub fn bytes32_less(a: &[u8; 32], b: &[u8; 32]) -> (r: bool)
    ensures
        r == bytes32_lt(*a, *b),
{
    let mut i: usize = 0;
    while i < 32
        invariant
            i <= 32,
            forall|j: int| 0 <= j < i ==> a[j] == b[j],
        decreases 32 - i,
    {
        if a[i] != b[i] {
            let r = a[i] < b[i];
            proof {
                if !r {
                    assert forall|k: int|
                        0 <= k < 32 && #[trigger] a[k] < b[k] implies !(forall|j: int|
                        0 <= j < k ==> a[j] == b[j]) by {
                        if k < i {
                        } else if k == i {
                        } else {
                            assert(a[i as int] != b[i as int]);
                        }
                    }
                }
            }
            return r;
        }
        i += 1;
    }
    proof {
        assert forall|k: int| 0 <= k < 32 && #[trigger] a[k] < b[k] implies false by {
            assert(a[k] == b[k]);
        }
    }
    false
}

/// The lexicographic order never puts an array before itself, and never
/// puts two arrays each before the other.
pub proof fn lemma_bytes32_lt_strict(a: [u8; 32], b: [u8; 32])
    ensures
        !bytes32_lt(a, a),
        !(bytes32_lt(a, b) && bytes32_lt(b, a)),
{
    if bytes32_lt(a, b) && bytes32_lt(b, a) {
        let i = choose|i: int|
            #![trigger a[i], b[i]]
            0 <= i < 32 && a[i] < b[i] && forall|j: int| 0 <= j < i ==> a[j] == b[j];
        let k = choose|k: int|
            #![trigger b[k], a[k]]
            0 <= k < 32 && b[k] < a[k] && forall|j: int| 0 <= j < k ==> b[j] == a[j];
        if i < k {
            assert(b[i] == a[i]);
        } else if k < i {
            assert(a[k] == b[k]);
        }
    }
}

/// Two different arrays are ordered one way or the other.
pub proof fn lemma_bytes32_lt_total(a: [u8; 32], b: [u8; 32])
    requires
        a != b,
    ensures
        bytes32_lt(a, b) || bytes32_lt(b, a),
{
    lemma_bytes32_first_difference(a, b, 0);
}

proof fn lemma_bytes32_first_difference(a: [u8; 32], b: [u8; 32], i: int)
    requires
        a != b,
        0 <= i <= 32,
        forall|j: int| 0 <= j < i ==> a[j] == b[j],
    ensures
        bytes32_lt(a, b) || bytes32_lt(b, a),
    decreases 32 - i,
{
    if i == 32 {
        assert(a =~= b);
    } else if a[i] == b[i] {
        lemma_bytes32_first_difference(a, b, i + 1);
    } else if a[i] < b[i] {
        assert(bytes32_lt(a, b));
    } else {
        assert(bytes32_lt(b, a));
    }
}

/// A 32-byte buffer (hashes, state roots, signature hashes).
#[derive(Clone, Copy, Debug, PartialEq, Eq, Hash)]
pub struct Buf32(pub [u8; 32]);

impl Buf32 {
    pub fn new(bytes: [u8; 32]) -> (r: Buf32)
        ensures
            r.0 == bytes,
    {
        Buf32(bytes)
    }

    pub fn zero() -> (r: Buf32)
        ensures
            forall|i: int| 0 <= i < 32 ==> r.0[i] == 0,
    {
        Buf32([0u8; 32])
    }

    pub fn same(&self, other: &Buf32) -> (r: bool)
        ensures
            r == (*self == *other),
    {
        bytes32_eq(&self.0, &other.0)
    }
}

/// Identifier of an account in the OL ledger.
#[derive(Clone, Copy, Debug, PartialEq, Eq, Hash, PartialOrd, Ord)]
pub struct AccountId(pub [u8; 32]);

impl AccountId {
    pub fn new(bytes: [u8; 32]) -> (r: AccountId)
        ensures
            r.0 == bytes,
    {
        AccountId(bytes)
    }

    pub fn as_bytes(&self) -> (r: &[u8; 32])
        ensures
            *r == self.0,
    {
        &self.0
    }

    pub fn same(&self, other: &AccountId) -> (r: bool)
        ensures
            r == (*self == *other),
    {
        bytes32_eq(&self.0, &other.0)
    }
}

/// Identifier of an OL transaction.
#[derive(Clone, Copy, Debug, PartialEq, Eq, Hash, PartialOrd, Ord)]
pub struct TxId(pub [u8; 32]);

impl TxId {
    pub fn new(bytes: [u8; 32]) -> (r: TxId)
        ensures
            r.0 == bytes,
    {
        TxId(bytes)
    }

    pub fn as_bytes(&self) -> (r: &[u8; 32])
        ensures
            *r == self.0,
    {
        &self.0
    }

    pub fn same(&self, other: &TxId) -> (r: bool)
        ensures
            r == (*self == *other),
    {
        bytes32_eq(&self.0, &other.0)
    }
}

} // verus!
