//! Priority order of mempool transactions.

use std::cmp::Ordering;

use vstd::prelude::*;

use crate::chain::transaction::{OLTransaction, OLTransactionView, TransactionPayloadView};
use crate::ids::{bytes32_less, bytes32_lt, lemma_bytes32_lt_strict, lemma_bytes32_lt_total, AccountId};

verus! {

/// Ordering key for mempool transactions.
///
/// Snark account updates of one account are ordered by sequence number;
/// everything else is ordered by arrival time (`timestamp_micros`,
/// microseconds since the UNIX epoch).
#[derive(Debug, Clone, Copy, PartialEq, Eq, Hash)]
pub enum MempoolOrderingKey {
    /// Snark account update transaction.
    Snark { account_id: AccountId, seq_no: u64, timestamp_micros: u64 },
    /// Generic account message transaction.
    Gam { timestamp_micros: u64 },
}

impl MempoolOrderingKey {
    pub open spec fn time(self) -> u64 {
        match self {
            MempoolOrderingKey::Snark { timestamp_micros, .. } => timestamp_micros,
            MempoolOrderingKey::Gam { timestamp_micros } => timestamp_micros,
        }
    }

    /// `self` comes strictly before `other`.
    ///
    /// Within one snark account: by sequence number, then by timestamp. In
    /// every other case: by timestamp; on equal timestamps a message key
    /// comes before a snark key, and snark keys of different accounts go by
    /// account id (byte-wise). So two different keys are never tied.
    pub open spec fn precedes(self, other: MempoolOrderingKey) -> bool {
        match (self, other) {
            (
                MempoolOrderingKey::Snark { account_id: a1, seq_no: s1, timestamp_micros: t1 },
                MempoolOrderingKey::Snark { account_id: a2, seq_no: s2, timestamp_micros: t2 },
            ) => if a1 == a2 {
                s1 < s2 || (s1 == s2 && t1 < t2)
            } else {
                t1 < t2 || (t1 == t2 && bytes32_lt(a1.0, a2.0))
            },
            (MempoolOrderingKey::Gam { timestamp_micros: t1 }, MempoolOrderingKey::Snark { timestamp_micros: t2, .. }) =>
                t1 <= t2,
            _ => self.time() < other.time(),
        }
    }

    /// The key of transaction `tx` that arrived at `timestamp_micros`.
    pub open spec fn of_transaction(tx: OLTransactionView, timestamp_micros: u64) -> MempoolOrderingKey {
        match tx.data.payload {
            TransactionPayloadView::SnarkAccountUpdate(p) => MempoolOrderingKey::Snark {
                account_id: p.target,
                seq_no: p.operation_data.update_data.seq_no,
                timestamp_micros,
            },
            TransactionPayloadView::GenericAccountMessage(_) => MempoolOrderingKey::Gam {
                timestamp_micros,
            },
        }
    }

    /// Creates the ordering key for a transaction with the given timestamp.
    pub fn for_transaction(tx: &OLTransaction, timestamp_micros: u64) -> (r: MempoolOrderingKey)
        ensures
            r == MempoolOrderingKey::of_transaction(tx@, timestamp_micros),
    {
        match tx.payload().seq_no() {
            Some(seq_no) => MempoolOrderingKey::Snark {
                account_id: tx.payload().target_account(),
                seq_no,
                timestamp_micros,
            },
            None => MempoolOrderingKey::Gam { timestamp_micros },
        }
    }

    /// The timestamp of this key.
    pub fn timestamp_micros(&self) -> (r: u64)
        ensures
            r == self.time(),
    {
        match self {
            MempoolOrderingKey::Snark { timestamp_micros, .. } => *timestamp_micros,
            MempoolOrderingKey::Gam { timestamp_micros } => *timestamp_micros,
        }
    }

    /// Whether `self` comes strictly before `other`.
    pub fn is_before(&self, other: &MempoolOrderingKey) -> (r: bool)
        ensures
            r == self.precedes(*other),
    {
        match (self, other) {
            (
                MempoolOrderingKey::Snark { account_id: a1, seq_no: s1, timestamp_micros: t1 },
                MempoolOrderingKey::Snark { account_id: a2, seq_no: s2, timestamp_micros: t2 },
            ) => {
                if a1.same(a2) {
                    *s1 < *s2 || (*s1 == *s2 && *t1 < *t2)
                } else {
                    *t1 < *t2 || (*t1 == *t2 && bytes32_less(&a1.0, &a2.0))
                }
            },
            (MempoolOrderingKey::Gam { timestamp_micros: t1 }, MempoolOrderingKey::Snark { timestamp_micros: t2, .. }) => {
                *t1 <= *t2
            },
            _ => self.timestamp_micros() < other.timestamp_micros(),
        }
    }

    /// Three-way comparison in priority order: `Equal` only for the same key.
    pub fn cmp(&self, other: &MempoolOrderingKey) -> (r: Ordering)
        ensures
            (r == Ordering::Less) == self.precedes(*other),
            (r == Ordering::Greater) == other.precedes(*self),
            (r == Ordering::Equal) == (*self == *other),
    {
        proof {
            lemma_precedes_asymmetric(*self, *other);
            lemma_precedes_irreflexive(*self);
            if *self != *other {
                lemma_distinct_keys_ordered(*self, *other);
            }
        }
        if self.is_before(other) {
            Ordering::Less
        } else if other.is_before(self) {
            Ordering::Greater
        } else {
            Ordering::Equal
        }
    }

    /// Three-way comparison in priority order; always some.
    pub fn partial_cmp(&self, other: &MempoolOrderingKey) -> (r: Option<Ordering>)
        ensures
            r is Some,
            (r == Some(Ordering::Less)) == self.precedes(*other),
            (r == Some(Ordering::Greater)) == other.precedes(*self),
    {
        Some(self.cmp(other))
    }
}

/// The priority order never puts a key strictly before itself.
pub proof fn lemma_precedes_irreflexive(a: MempoolOrderingKey)
    ensures
        !a.precedes(a),
{
    if let MempoolOrderingKey::Snark { account_id, .. } = a {
        lemma_bytes32_lt_strict(account_id.0, account_id.0);
    }
}

/// The priority order is asymmetric: two keys are never each strictly before
/// the other.
pub proof fn lemma_precedes_asymmetric(a: MempoolOrderingKey, b: MempoolOrderingKey)
    ensures
        !(a.precedes(b) && b.precedes(a)),
{
    if let (MempoolOrderingKey::Snark { account_id: x, .. }, MempoolOrderingKey::Snark { account_id: y, .. }) = (a, b) {
        lemma_bytes32_lt_strict(x.0, y.0);
    }
}

/// The ordering is collision-free: of two different keys, one comes
/// strictly before the other.
pub proof fn lemma_distinct_keys_ordered(a: MempoolOrderingKey, b: MempoolOrderingKey)
    requires
        a != b,
    ensures
        a.precedes(b) || b.precedes(a),
{
    if let (MempoolOrderingKey::Snark { account_id: x, .. }, MempoolOrderingKey::Snark { account_id: y, .. }) = (a, b) {
        if x != y {
            if x.0 == y.0 {
                assert(x == y);
            }
            lemma_bytes32_lt_total(x.0, y.0);
        }
    }
}

/// Within one snark account the order is by sequence number, whatever the
/// timestamps, when the sequence numbers differ.
pub proof fn lemma_same_account_by_seq_no(
    account: AccountId,
    s1: u64,
    t1: u64,
    s2: u64,
    t2: u64,
)
    requires
        s1 != s2,
    ensures
        (MempoolOrderingKey::Snark { account_id: account, seq_no: s1, timestamp_micros: t1 }).precedes(
            MempoolOrderingKey::Snark { account_id: account, seq_no: s2, timestamp_micros: t2 },
        ) == (s1 < s2),
{
}

/// Keys of different accounts, and any key against a message key, are
/// ordered by timestamp when the timestamps differ.
pub proof fn lemma_otherwise_by_time(a: MempoolOrderingKey, b: MempoolOrderingKey)
    requires
        !(a matches MempoolOrderingKey::Snark { account_id: x, .. } && b matches MempoolOrderingKey::Snark {
            account_id: y,
            ..
        } && x == y),
        a.time() != b.time(),
    ensures
        a.precedes(b) == (a.time() < b.time()),
{
}

} // verus!
