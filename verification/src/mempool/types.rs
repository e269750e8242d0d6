//! Mempool configuration, statistics and rejection bookkeeping.

use vstd::prelude::*;

verus! {

/// Default maximum number of transactions in the mempool.
pub const DEFAULT_MAX_TX_COUNT: usize = 10_000;

/// Default maximum size of a single transaction in bytes.
pub const DEFAULT_MAX_TX_SIZE: usize = 1_048_576;

/// Default maximum total size of all transactions in the mempool (bytes).
pub const DEFAULT_MAX_MEMPOOL_BYTES: usize = 1_073_741_824;

/// Default maximum reorg depth for finding a common ancestor.
pub const DEFAULT_MAX_REORG_DEPTH: u64 = 50;

/// Default command channel buffer size.
pub const DEFAULT_COMMAND_BUFFER_SIZE: usize = 1000;

/// Configuration for the OL mempool.
#[derive(Clone, Copy, Debug)]
pub struct OLMempoolConfig {
    /// Maximum number of transactions in the mempool.
    pub max_tx_count: usize,
    /// Maximum size of a single transaction in bytes.
    pub max_tx_size: usize,
    /// Maximum total size of all transactions in the mempool (bytes).
    pub max_mempool_bytes: usize,
    /// Maximum reorg depth for finding a common ancestor.
    pub max_reorg_depth: u64,
    /// Command channel buffer size.
    pub command_buffer_size: usize,
}

impl Default for OLMempoolConfig {
    fn default() -> (r: Self)
        ensures
            r.max_tx_count == DEFAULT_MAX_TX_COUNT,
            r.max_tx_size == DEFAULT_MAX_TX_SIZE,
            r.max_mempool_bytes == DEFAULT_MAX_MEMPOOL_BYTES,
            r.max_reorg_depth == DEFAULT_MAX_REORG_DEPTH,
            r.command_buffer_size == DEFAULT_COMMAND_BUFFER_SIZE,
    {
        OLMempoolConfig {
            max_tx_count: DEFAULT_MAX_TX_COUNT,
            max_tx_size: DEFAULT_MAX_TX_SIZE,
            max_mempool_bytes: DEFAULT_MAX_MEMPOOL_BYTES,
            max_reorg_depth: DEFAULT_MAX_REORG_DEPTH,
            command_buffer_size: DEFAULT_COMMAND_BUFFER_SIZE,
        }
    }
}

/// Reason for rejecting a transaction from the mempool.
#[derive(Clone, Copy, Debug, PartialEq, Eq, PartialOrd, Ord, Hash)]
pub enum OLMempoolRejectReason {
    /// Mempool size limit exceeded.
    MempoolFull,
    /// Target account does not exist.
    AccountDoesNotExist,
    /// Account type does not fit the transaction.
    AccountTypeMismatch,
    /// Transaction too large.
    TransactionTooLarge,
    /// Sequence number already used.
    UsedSequenceNumber,
    /// Sequence number gap.
    SequenceNumberGap,
    /// Expired (max_slot in the past).
    TransactionExpired,
    /// Not mature (min_slot in the future).
    TransactionNotMature,
    /// Already in the mempool.
    Duplicate,
}

/// Number of rejection reasons.
pub const NUM_REJECT_REASONS: usize = 9;

/// Position of a reason in the declared order of reasons.
pub open spec fn reason_index(r: OLMempoolRejectReason) -> int {
    match r {
        OLMempoolRejectReason::MempoolFull => 0,
        OLMempoolRejectReason::AccountDoesNotExist => 1,
        OLMempoolRejectReason::AccountTypeMismatch => 2,
        OLMempoolRejectReason::TransactionTooLarge => 3,
        OLMempoolRejectReason::UsedSequenceNumber => 4,
        OLMempoolRejectReason::SequenceNumberGap => 5,
        OLMempoolRejectReason::TransactionExpired => 6,
        OLMempoolRejectReason::TransactionNotMature => 7,
        OLMempoolRejectReason::Duplicate => 8,
    }
}

impl OLMempoolRejectReason {
    pub fn index(&self) -> (r: usize)
        ensures
            r == reason_index(*self),
            r < NUM_REJECT_REASONS,
    {
        match self {
            OLMempoolRejectReason::MempoolFull => 0,
            OLMempoolRejectReason::AccountDoesNotExist => 1,
            OLMempoolRejectReason::AccountTypeMismatch => 2,
            OLMempoolRejectReason::TransactionTooLarge => 3,
            OLMempoolRejectReason::UsedSequenceNumber => 4,
            OLMempoolRejectReason::SequenceNumberGap => 5,
            OLMempoolRejectReason::TransactionExpired => 6,
            OLMempoolRejectReason::TransactionNotMature => 7,
            OLMempoolRejectReason::Duplicate => 8,
        }
    }

    /// The reason at position `i` of the declared order.
    pub fn from_index(i: usize) -> (r: OLMempoolRejectReason)
        requires
            i < NUM_REJECT_REASONS,
        ensures
            reason_index(r) == i,
    {
        if i == 0 {
            OLMempoolRejectReason::MempoolFull
        } else if i == 1 {
            OLMempoolRejectReason::AccountDoesNotExist
        } else if i == 2 {
            OLMempoolRejectReason::AccountTypeMismatch
        } else if i == 3 {
            OLMempoolRejectReason::TransactionTooLarge
        } else if i == 4 {
            OLMempoolRejectReason::UsedSequenceNumber
        } else if i == 5 {
            OLMempoolRejectReason::SequenceNumberGap
        } else if i == 6 {
            OLMempoolRejectReason::TransactionExpired
        } else if i == 7 {
            OLMempoolRejectReason::TransactionNotMature
        } else {
            OLMempoolRejectReason::Duplicate
        }
    }
}

/// Reason a reported transaction is invalid.
#[derive(Clone, Copy, Debug, PartialEq, Eq)]
pub enum MempoolTxInvalidReason {
    /// Permanently invalid (consensus rules, expired): removed from the mempool.
    Invalid,
    /// Failed, perhaps transiently: stays until revalidation.
    Failed,
}

/// Whether a transaction reported invalid for `reason` leaves the mempool.
pub fn should_remove_tx(reason: MempoolTxInvalidReason) -> (r: bool)
    ensures
        r == (reason is Invalid),
{
    match reason {
        MempoolTxInvalidReason::Invalid => true,
        MempoolTxInvalidReason::Failed => false,
    }
}

/// Sum of the first `n` counts.
pub open spec fn sum_counts(s: Seq<u64>, n: int) -> int
    decreases n,
{
    if n <= 0 {
        0
    } else {
        sum_counts(s, n - 1) + s[n - 1]
    }
}

/// The sum of all the counts, saturating at `u64::MAX`: what
/// [`OLMempoolRejectCounts::total`] returns.
pub open spec fn capped_total(s: Seq<u64>) -> int {
    if sum_counts(s, NUM_REJECT_REASONS as int) <= u64::MAX {
        sum_counts(s, NUM_REJECT_REASONS as int)
    } else {
        u64::MAX as int
    }
}

/// Counts that are all zero sum to zero.
pub proof fn lemma_sum_counts_zero(s: Seq<u64>, n: int)
    requires
        0 <= n <= s.len(),
        forall|k: int| 0 <= k < n ==> s[k] == 0,
    ensures
        sum_counts(s, n) == 0,
    decreases n,
{
    if n > 0 {
        lemma_sum_counts_zero(s, n - 1);
    }
}

/// Changing one count by `d` changes every sum that covers it by `d`.
pub proof fn lemma_sum_counts_update(s: Seq<u64>, i: int, v: u64, n: int)
    requires
        0 <= i < s.len(),
        0 <= n <= s.len(),
    ensures
        sum_counts(s.update(i, v), n) == sum_counts(s, n) + if i < n {
            v - s[i]
        } else {
            0
        },
    decreases n,
{
    if n > 0 {
        lemma_sum_counts_update(s, i, v, n - 1);
    }
}

/// Each count is at most the sum of the counts that cover it.
pub proof fn lemma_count_le_sum(s: Seq<u64>, i: int, n: int)
    requires
        0 <= i < n <= s.len(),
    ensures
        s[i] <= sum_counts(s, n),
    decreases n,
{
    if n - 1 > i {
        lemma_count_le_sum(s, i, n - 1);
    }
    lemma_sum_counts_nonneg(s, n - 1);
}

proof fn lemma_sum_counts_nonneg(s: Seq<u64>, n: int)
    ensures
        sum_counts(s, n) >= 0,
    decreases n,
{
    if n > 0 {
        lemma_sum_counts_nonneg(s, n - 1);
    }
}

/// Rejection counts per [`OLMempoolRejectReason`]. Counts saturate at
/// `u64::MAX`.
#[derive(Clone, Debug)]
pub struct OLMempoolRejectCounts {
    counts: Vec<u64>,
}

impl View for OLMempoolRejectCounts {
    type V = Seq<u64>;

    closed spec fn view(&self) -> Seq<u64> {
        self.counts@
    }
}

impl OLMempoolRejectCounts {
    /// One count for each reason.
    pub open spec fn wf(&self) -> bool {
        self@.len() == NUM_REJECT_REASONS
    }

    /// The count of rejections for `reason`.
    pub open spec fn count_of(&self, reason: OLMempoolRejectReason) -> u64 {
        self@[reason_index(reason)]
    }

    pub fn new() -> (r: OLMempoolRejectCounts)
        ensures
            r.wf(),
            r@ == Seq::new(NUM_REJECT_REASONS as nat, |i: int| 0u64),
    {
        let mut counts: Vec<u64> = Vec::new();
        let mut i: usize = 0;
        while i < NUM_REJECT_REASONS
            invariant
                i <= NUM_REJECT_REASONS,
                counts@.len() == i,
                forall|k: int| 0 <= k < i ==> counts@[k] == 0,
            decreases NUM_REJECT_REASONS - i,
        {
            counts.push(0);
            i += 1;
        }
        let r = OLMempoolRejectCounts { counts };
        assert(r@ =~= Seq::new(NUM_REJECT_REASONS as nat, |i: int| 0u64));
        r
    }

    /// Counts one more rejection for `reason`.
    pub fn increment(&mut self, reason: OLMempoolRejectReason)
        requires
            old(self).wf(),
        ensures
            final(self).wf(),
            final(self)@ == old(self)@.update(
                reason_index(reason),
                if old(self)@[reason_index(reason)] < u64::MAX {
                    (old(self)@[reason_index(reason)] + 1) as u64
                } else {
                    u64::MAX
                },
            ),
    {
        let i = reason.index();
        let c = self.counts[i];
        self.counts.set(i, c.saturating_add(1));
    }

    /// The count of rejections for `reason`.
    pub fn get(&self, reason: OLMempoolRejectReason) -> (r: u64)
        requires
            self.wf(),
        ensures
            r == self.count_of(reason),
    {
        self.counts[reason.index()]
    }

    /// The reasons with at least one rejection, in declared order, with their
    /// counts.
    pub fn iter(&self) -> (r: Vec<(OLMempoolRejectReason, u64)>)
        requires
            self.wf(),
        ensures
            forall|k: int|
                0 <= k < r@.len() ==> (#[trigger] r@[k]).1 > 0 && r@[k].1 == self.count_of(r@[k].0),
            forall|k1: int, k2: int|
                0 <= k1 < k2 < r@.len() ==> reason_index(r@[k1].0) < reason_index(r@[k2].0),
            forall|reason: OLMempoolRejectReason|
                self.count_of(reason) > 0 ==> exists|k: int| 0 <= k < r@.len() && #[trigger] r@[k].0 == reason,
    {
        let mut out: Vec<(OLMempoolRejectReason, u64)> = Vec::new();
        let mut i: usize = 0;
        while i < NUM_REJECT_REASONS
            invariant
                self.wf(),
                i <= NUM_REJECT_REASONS,
                forall|k: int|
                    0 <= k < out@.len() ==> (#[trigger] out@[k]).1 > 0 && out@[k].1 == self.count_of(out@[k].0)
                        && reason_index(out@[k].0) < i,
                forall|k1: int, k2: int|
                    0 <= k1 < k2 < out@.len() ==> reason_index(out@[k1].0) < reason_index(out@[k2].0),
                forall|reason: OLMempoolRejectReason|
                    reason_index(reason) < i && self.count_of(reason) > 0 ==> exists|k: int|
                        0 <= k < out@.len() && #[trigger] out@[k].0 == reason,
            decreases NUM_REJECT_REASONS - i,
        {
            let c = self.counts[i];
            let reason = OLMempoolRejectReason::from_index(i);
            let ghost out0 = out@;
            if c > 0 {
                out.push((reason, c));
            }
            proof {
                assert forall|rs: OLMempoolRejectReason|
                    reason_index(rs) < i + 1 && self.count_of(rs) > 0 implies exists|k: int|
                    0 <= k < out@.len() && #[trigger] out@[k].0 == rs by {
                    if reason_index(rs) == i {
                        assert(rs == reason);
                        assert(out@[out@.len() - 1].0 == rs);
                    } else {
                        let k = choose|k: int| 0 <= k < out0.len() && #[trigger] out0[k].0 == rs;
                        assert(out@[k] == out0[k]);
                    }
                }
            }
            i += 1;
        }
        out
    }

    /// Total number of rejections over all reasons, saturating at `u64::MAX`.
    pub fn total(&self) -> (r: u64)
        requires
            self.wf(),
        ensures
            r == (if sum_counts(self@, NUM_REJECT_REASONS as int) <= u64::MAX {
                sum_counts(self@, NUM_REJECT_REASONS as int)
            } else {
                u64::MAX as int
            }),
    {
        let mut total: u64 = 0;
        let mut saturated = false;
        let mut i: usize = 0;
        while i < NUM_REJECT_REASONS
            invariant
                self.wf(),
                i <= NUM_REJECT_REASONS,
                !saturated ==> total == sum_counts(self@, i as int),
                saturated ==> total == u64::MAX && sum_counts(self@, i as int) > u64::MAX,
            decreases NUM_REJECT_REASONS - i,
        {
            let c = self.counts[i];
            if !saturated {
                if total > u64::MAX - c {
                    saturated = true;
                    total = u64::MAX;
                } else {
                    total = total + c;
                }
            }
            i += 1;
        }
        total
    }
}

/// Statistics about the mempool state.
#[derive(Clone, Debug)]
pub struct OLMempoolStats {
    /// Current number of transactions in the mempool.
    pub mempool_size: usize,
    /// Total size of all transactions in bytes.
    pub total_bytes: usize,
    /// Total enqueued transactions (accepted).
    pub enqueues_accepted: u64,
    /// Total rejected transactions.
    pub enqueues_rejected: u64,
    /// Rejections by reason.
    pub rejects_by_reason: OLMempoolRejectCounts,
    /// Total evictions due to capacity limits.
    pub evictions: u64,
}

impl OLMempoolStats {
    pub open spec fn wf(&self) -> bool {
        self.rejects_by_reason.wf()
    }

    /// All counters at zero.
    pub fn new() -> (r: OLMempoolStats)
        ensures
            r.wf(),
            r.mempool_size == 0,
            r.total_bytes == 0,
            r.enqueues_accepted == 0,
            r.enqueues_rejected == 0,
            r.rejects_by_reason@ == Seq::new(NUM_REJECT_REASONS as nat, |i: int| 0u64),
            r.evictions == 0,
    {
        OLMempoolStats {
            mempool_size: 0,
            total_bytes: 0,
            enqueues_accepted: 0,
            enqueues_rejected: 0,
            rejects_by_reason: OLMempoolRejectCounts::new(),
            evictions: 0,
        }
    }

    pub fn mempool_size(&self) -> (r: usize)
        ensures
            r == self.mempool_size,
    {
        self.mempool_size
    }

    pub fn total_bytes(&self) -> (r: usize)
        ensures
            r == self.total_bytes,
    {
        self.total_bytes
    }

    pub fn enqueues_accepted(&self) -> (r: u64)
        ensures
            r == self.enqueues_accepted,
    {
        self.enqueues_accepted
    }

    pub fn enqueues_rejected(&self) -> (r: u64)
        ensures
            r == self.enqueues_rejected,
    {
        self.enqueues_rejected
    }

    pub fn rejects_by_reason(&self) -> (r: &OLMempoolRejectCounts)
        ensures
            r@ == self.rejects_by_reason@,
            r.wf() == self.rejects_by_reason.wf(),
    {
        &self.rejects_by_reason
    }

    pub fn evictions(&self) -> (r: u64)
        ensures
            r == self.evictions,
    {
        self.evictions
    }
}

/// Service status for the mempool.
#[derive(Debug, Clone)]
pub struct MempoolServiceStatus {
    pub stats: OLMempoolStats,
}

} // verus!
