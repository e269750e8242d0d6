//! The in-memory mempool: entries in priority order, with per-account
//! sequence tracking and statistics.

use vstd::prelude::*;

use crate::chain::decoding::{decode_tx, decoded_tx, lemma_decode_encode};
use crate::chain::encoding::{enc_proofs, enc_tx, enc_tx_data, encode_tx};
use crate::chain::transaction::{OLTransaction, OLTransactionView};
use crate::chain::txid::{merkle_input_fits, spec_txid};
use crate::ids::{AccountId, TxId};
use crate::mempool::chain_view::ChainState;
use crate::mempool::error::{OLMempoolError, OLMempoolResult};
use crate::mempool::ordering::MempoolOrderingKey;
use crate::mempool::types::{
    MempoolTxInvalidReason, OLMempoolConfig, OLMempoolRejectReason, OLMempoolStats, reason_index,
    should_remove_tx, capped_total, lemma_count_le_sum, lemma_sum_counts_update, lemma_sum_counts_zero,
    NUM_REJECT_REASONS,
};
use crate::mempool::error::spec_reject_reason;
use crate::mempool::stored::{
    MempoolTxData, StoredView, lemma_sort_keeps_fit, lemma_sort_stored_bytes, records_fit, lemma_stored_bytes_prefix, sort_by_time,
    sort_by_timestamp, stored_bytes, stored_views,
};
use crate::mempool::validation::{lemma_validation_errors_have_reasons, spec_validate, validate_transaction};
use crate::sys::now_micros;

verus! {

/// A mempool entry: a transaction with its id, ordering key and encoded size.
#[derive(Clone, Debug)]
pub struct MempoolEntry {
    pub txid: TxId,
    pub tx: OLTransaction,
    pub ordering_key: MempoolOrderingKey,
    pub size_bytes: usize,
}

pub struct EntryView {
    pub txid: TxId,
    pub tx: OLTransactionView,
    pub key: MempoolOrderingKey,
    pub size: usize,
}

impl View for MempoolEntry {
    type V = EntryView;

    open spec fn view(&self) -> EntryView {
        EntryView {
            txid: self.txid,
            tx: self.tx@,
            key: self.ordering_key,
            size: self.size_bytes,
        }
    }
}

impl MempoolEntry {
    pub fn new(txid: TxId, tx: OLTransaction, ordering_key: MempoolOrderingKey, size_bytes: usize) -> (r:
        MempoolEntry)
        ensures
            r@ == (EntryView { txid, tx: tx@, key: ordering_key, size: size_bytes }),
    {
        MempoolEntry { txid, tx, ordering_key, size_bytes }
    }
}

/// Total encoded size of the entries.
pub open spec fn sum_sizes(s: Seq<EntryView>) -> nat
    decreases s.len(),
{
    if s.len() == 0 {
        0
    } else {
        sum_sizes(s.drop_last()) + s.last().size as nat
    }
}

pub proof fn lemma_sum_sizes_insert(s: Seq<EntryView>, i: int, x: EntryView)
    requires
        0 <= i <= s.len(),
    ensures
        sum_sizes(s.insert(i, x)) == sum_sizes(s) + x.size,
    decreases s.len(),
{
    if i == s.len() {
        assert(s.insert(i, x).drop_last() =~= s);
    } else {
        lemma_sum_sizes_insert(s.drop_last(), i, x);
        assert(s.insert(i, x).drop_last() =~= s.drop_last().insert(i, x));
    }
}

pub proof fn lemma_sum_sizes_remove(s: Seq<EntryView>, i: int)
    requires
        0 <= i < s.len(),
    ensures
        sum_sizes(s.remove(i)) + s[i].size == sum_sizes(s),
    decreases s.len(),
{
    if i == s.len() - 1 {
        assert(s.remove(i) =~= s.drop_last());
    } else {
        lemma_sum_sizes_remove(s.drop_last(), i);
        assert(s.remove(i).drop_last() =~= s.drop_last().remove(i));
    }
}

/// Filtering one more item of a prefix.
pub proof fn lemma_take_filter_step<A>(s: Seq<A>, pred: spec_fn(A) -> bool, i: int)
    requires
        0 <= i < s.len(),
    ensures
        s.take(i + 1).filter(pred) == (if pred(s[i]) {
            s.take(i).filter(pred).push(s[i])
        } else {
            s.take(i).filter(pred)
        }),
{
    assert(s.take(i + 1) =~= s.take(i).push(s[i]));
    s.take(i).lemma_filter_push(s[i], pred);
}

/// Every item of a filtered sequence comes from the sequence.
pub proof fn lemma_filtered_member<A>(s: Seq<A>, pred: spec_fn(A) -> bool, k: int)
    requires
        0 <= k < s.filter(pred).len(),
    ensures
        exists|i: int| 0 <= i < s.len() && s[i] == s.filter(pred)[k],
    decreases s.len(),
{
    reveal(Seq::filter);
    let sub = s.drop_last().filter(pred);
    if k < sub.len() {
        lemma_filtered_member(s.drop_last(), pred, k);
        let i = choose|i: int| 0 <= i < s.drop_last().len() && s.drop_last()[i] == sub[k];
        assert(s[i] == s.filter(pred)[k]);
    } else {
        assert(s[s.len() - 1] == s.filter(pred)[k]);
    }
}

/// The entry is a snark account update of `account`.
pub open spec fn is_update_of(e: EntryView, account: AccountId) -> bool {
    e.tx.target() == account && e.tx.seq_no() is Some
}

/// Sequence numbers of the pending updates of `account`, in priority order.
pub open spec fn pending_seq_nos(pool: Seq<EntryView>, account: AccountId) -> Seq<u64> {
    pool.filter(|e: EntryView| is_update_of(e, account)).map_values(|e: EntryView| e.tx.seq_no()->0)
}

pub open spec fn seq_min(s: Seq<u64>) -> u64
    decreases s.len(),
{
    if s.len() <= 1 {
        s[0]
    } else if s.last() < seq_min(s.drop_last()) {
        s.last()
    } else {
        seq_min(s.drop_last())
    }
}

pub open spec fn seq_max(s: Seq<u64>) -> u64
    decreases s.len(),
{
    if s.len() <= 1 {
        s[0]
    } else if s.last() > seq_max(s.drop_last()) {
        s.last()
    } else {
        seq_max(s.drop_last())
    }
}

/// The lowest and highest of a list of sequence numbers, if it is not empty.
pub open spec fn seq_range(s: Seq<u64>) -> Option<(u64, u64)> {
    if s.len() == 0 {
        None
    } else {
        Some((seq_min(s), seq_max(s)))
    }
}

/// Range of the sequence numbers pending in `pool` for `account`.
pub open spec fn pending_range(pool: Seq<EntryView>, account: AccountId) -> Option<(u64, u64)> {
    seq_range(pending_seq_nos(pool, account))
}

/// Entries removed with a transaction removed for failure: the later
/// updates of its account. A removed update lets go of the account's updates
/// from its sequence number on; a removed message of those at `u64::MAX`.
pub open spec fn removal_floor(e: EntryView) -> u64 {
    match e.tx.seq_no() {
        Some(s) => s,
        None => u64::MAX,
    }
}

/// `e` is an update of an account that lost, among `ids`, a transaction
/// whose removal floor is at or below `e`'s sequence number.
pub open spec fn cascaded(pool: Seq<EntryView>, ids: Seq<TxId>, e: EntryView) -> bool {
    &&& e.tx.seq_no() is Some
    &&& exists|k: int|
        0 <= k < pool.len() && ids.contains(#[trigger] pool[k].txid) && pool[k].tx.target() == e.tx.target()
            && removal_floor(pool[k]) <= e.tx.seq_no()->0
}

/// `e` leaves the pool when `ids` are removed (with or without cascade).
pub open spec fn dropped(pool: Seq<EntryView>, ids: Seq<TxId>, cascade: bool, e: EntryView) -> bool {
    ids.contains(e.txid) || (cascade && cascaded(pool, ids, e))
}

/// The pool after removing `ids`.
pub open spec fn after_removal(pool: Seq<EntryView>, ids: Seq<TxId>, cascade: bool) -> Seq<EntryView> {
    pool.filter(|e: EntryView| !dropped(pool, ids, cascade, e))
}

/// The ids that removing `ids` takes out, in priority order.
pub open spec fn removed_ids(pool: Seq<EntryView>, ids: Seq<TxId>, cascade: bool) -> Seq<TxId> {
    pool.filter(|e: EntryView| dropped(pool, ids, cascade, e)).map_values(|e: EntryView| e.txid)
}

/// Entries uniquely identified and each consistent.
pub open spec fn sound_entries(pool: Seq<EntryView>) -> bool {
    &&& unique_ids(pool)
    &&& forall|i: int| 0 <= i < pool.len() ==> entry_consistent(#[trigger] pool[i])
}

proof fn lemma_sound_remove(pool: Seq<EntryView>, i: int)
    requires
        sound_entries(pool),
        0 <= i < pool.len(),
    ensures
        sound_entries(pool.remove(i)),
{
    let r = pool.remove(i);
    assert forall|a: int, b: int| 0 <= a < r.len() && 0 <= b < r.len() && a != b implies r[a].txid != r[b].txid by {
        let a0 = if a < i { a } else { a + 1 };
        let b0 = if b < i { b } else { b + 1 };
        assert(r[a] == pool[a0]);
        assert(r[b] == pool[b0]);
    }
    assert forall|a: int| 0 <= a < r.len() implies entry_consistent(#[trigger] r[a]) by {
        let a0 = if a < i { a } else { a + 1 };
        assert(r[a] == pool[a0]);
    }
}

/// Whether `ids` holds `id`.
pub fn ids_contain(ids: &[TxId], id: &TxId) -> (r: bool)
    ensures
        r == ids@.contains(*id),
{
    let mut i: usize = 0;
    while i < ids.len()
        invariant
            i <= ids.len(),
            forall|j: int| 0 <= j < i ==> ids@[j] != *id,
        decreases ids.len() - i,
    {
        if ids[i].same(id) {
            assert(ids@[i as int] == *id);
            return true;
        }
        i += 1;
    }
    false
}

/// `j` is the first entry of `pool` that is an update of `account` with
/// sequence number `seq`.
pub open spec fn first_same_seq(pool: Seq<EntryView>, account: AccountId, seq: u64, j: int) -> bool {
    &&& 0 <= j < pool.len()
    &&& is_update_of(pool[j], account) && pool[j].tx.seq_no() == Some(seq)
    &&& forall|k: int| 0 <= k < j ==> !(is_update_of(#[trigger] pool[k], account) && pool[k].tx.seq_no() == Some(seq))
}

/// The pool with the pending update that `tx` replaces taken out: the first
/// update of the same account with the same sequence number, if any.
pub open spec fn without_replaced(pool: Seq<EntryView>, tx: OLTransactionView) -> Seq<EntryView> {
    match tx.seq_no() {
        Some(seq) => if exists|j: int| first_same_seq(pool, tx.target(), seq, j) {
            pool.remove(choose|j: int| first_same_seq(pool, tx.target(), seq, j))
        } else {
            pool
        },
        None => pool,
    }
}

/// `i` is the first position whose entry `key` comes strictly before.
pub open spec fn first_after(pool: Seq<EntryView>, key: MempoolOrderingKey, i: int) -> bool {
    &&& 0 <= i < pool.len()
    &&& key.precedes(pool[i].key)
    &&& forall|k: int| 0 <= k < i ==> !key.precedes(#[trigger] pool[k].key)
}

/// Where an entry with ordering key `key` goes: before the first entry it
/// precedes, or at the end.
pub open spec fn insert_pos(pool: Seq<EntryView>, key: MempoolOrderingKey) -> int {
    if exists|i: int| first_after(pool, key, i) {
        choose|i: int| first_after(pool, key, i)
    } else {
        pool.len() as int
    }
}

/// `id` is the identifier of transaction `tx`.
pub open spec fn is_txid_of(id: TxId, tx: OLTransactionView) -> bool {
    id.0@ == spec_txid(tx.data)
}

/// One more, saturating.
pub open spec fn sat_inc(x: u64) -> u64 {
    if x < u64::MAX {
        (x + 1) as u64
    } else {
        x
    }
}

/// `s1` is `s0` with one more rejection for `reason`.
pub open spec fn rejected_once(s0: OLMempoolStats, s1: OLMempoolStats, reason: OLMempoolRejectReason) -> bool {
    &&& s1.enqueues_rejected == sat_inc(s0.enqueues_rejected)
    &&& s1.rejects_by_reason@ == s0.rejects_by_reason@.update(
        reason_index(reason),
        sat_inc(s0.rejects_by_reason@[reason_index(reason)]),
    )
    &&& s1.enqueues_accepted == s0.enqueues_accepted
    &&& s1.evictions == s0.evictions
}

/// `s1` is `s0` with its counters unchanged.
pub open spec fn counters_unchanged(s0: OLMempoolStats, s1: OLMempoolStats) -> bool {
    &&& s1.enqueues_rejected == s0.enqueues_rejected
    &&& s1.rejects_by_reason@ == s0.rejects_by_reason@
    &&& s1.enqueues_accepted == s0.enqueues_accepted
    &&& s1.evictions == s0.evictions
}

/// Two transaction ids with the same bytes are the same id.
pub proof fn lemma_txid_eq(a: TxId, b: TxId)
    requires
        a.0@ == b.0@,
    ensures
        a == b,
{
    assert forall|i: int| 0 <= i < 32 implies a.0[i] == b.0[i] by {
        assert(a.0@[i] == b.0@[i]);
    }
    assert(a.0 =~= b.0);
}

/// Transactions and sequence numbers pending for one account.
#[derive(Clone, Debug)]
pub struct AccountMempoolState {
    /// Ids of the account's transactions, in priority order.
    pub txids: Vec<TxId>,
    /// Sequence numbers of the account's snark updates, in priority order.
    pub seq_nos: Vec<u64>,
}

impl AccountMempoolState {
    /// Lowest and highest pending sequence number, if there is one.
    pub fn seq_no_range(&self) -> (r: Option<(u64, u64)>)
        ensures
            r == seq_range(self.seq_nos@),
    {
        let n = self.seq_nos.len();
        if n == 0 {
            return None;
        }
        let mut lo = self.seq_nos[0];
        let mut hi = self.seq_nos[0];
        let mut i: usize = 1;
        while i < n
            invariant
                n == self.seq_nos@.len(),
                1 <= i <= n,
                lo == seq_min(self.seq_nos@.take(i as int)),
                hi == seq_max(self.seq_nos@.take(i as int)),
            decreases n - i,
        {
            let x = self.seq_nos[i];
            proof {
                let t = self.seq_nos@.take(i + 1);
                assert(t.drop_last() =~= self.seq_nos@.take(i as int));
                assert(t.last() == x);
            }
            if x < lo {
                lo = x;
            }
            if x > hi {
                hi = x;
            }
            i += 1;
        }
        assert(self.seq_nos@.take(n as int) =~= self.seq_nos@);
        Some((lo, hi))
    }
}

/// The mempool: validated transactions in priority order, the chain state
/// they are validated against, and statistics.
pub struct MempoolServiceState {
    config: OLMempoolConfig,
    chain: ChainState,
    entries: Vec<MempoolEntry>,
    stats: OLMempoolStats,
}

/// The values of the entries.
pub open spec fn entry_views(s: Seq<MempoolEntry>) -> Seq<EntryView> {
    s.map_values(|e: MempoolEntry| e@)
}

/// An entry is consistent: its id, ordering key and size are those of its
/// transaction.
pub open spec fn entry_consistent(e: EntryView) -> bool {
    &&& e.txid.0@ == spec_txid(e.tx.data)
    &&& e.key == MempoolOrderingKey::of_transaction(e.tx, e.key.time())
    &&& e.size == enc_tx(e.tx).len()
}

/// No two entries share an id.
pub open spec fn unique_ids(pool: Seq<EntryView>) -> bool {
    forall|i: int, j: int| 0 <= i < pool.len() && 0 <= j < pool.len() && i != j ==> pool[i].txid != pool[j].txid
}

/// Some entry has id `id`.
pub open spec fn has_txid(pool: Seq<EntryView>, id: TxId) -> bool {
    exists|i: int| 0 <= i < pool.len() && pool[i].txid == id
}

impl MempoolServiceState {
    /// The entries, in priority order.
    pub closed spec fn pool(&self) -> Seq<EntryView> {
        entry_views(self.entries@)
    }

    pub closed spec fn config_view(&self) -> OLMempoolConfig {
        self.config
    }

    pub closed spec fn chain_view(&self) -> ChainState {
        self.chain
    }

    pub closed spec fn stats_view(&self) -> OLMempoolStats {
        self.stats
    }

    /// The mempool's invariant: entries consistent and uniquely identified,
    /// and the statistics in step with them: the size statistic is the number
    /// of entries and the byte statistic the sum of their sizes; the rejected
    /// counter is the (saturating) total of the per-reason counts; nothing
    /// is ever evicted.
    pub open spec fn wf(&self) -> bool {
        &&& unique_ids(self.pool())
        &&& forall|i: int| 0 <= i < self.pool().len() ==> entry_consistent(#[trigger] self.pool()[i])
        &&& self.stats_view().wf()
        &&& self.stats_view().mempool_size == self.pool().len()
        &&& self.stats_view().total_bytes == sum_sizes(self.pool())
        &&& self.stats_view().enqueues_rejected == capped_total(self.stats_view().rejects_by_reason@)
        &&& self.stats_view().evictions == 0
    }

    /// An empty mempool validating against `chain`.
    pub fn new(config: OLMempoolConfig, chain: ChainState) -> (r: MempoolServiceState)
        ensures
            r.wf(),
            r.pool() == Seq::<EntryView>::empty(),
            r.config_view() == config,
            r.chain_view() == chain,
            r.stats_view().mempool_size == 0,
            r.stats_view().total_bytes == 0,
            r.stats_view().enqueues_accepted == 0,
            r.stats_view().enqueues_rejected == 0,
            r.stats_view().evictions == 0,
            r.stats_view().rejects_by_reason@ == Seq::new(9, |i: int| 0u64),
    {
        let r = MempoolServiceState { config, chain, entries: Vec::new(), stats: OLMempoolStats::new() };
        assert(r.pool() =~= Seq::<EntryView>::empty());
        proof {
            lemma_sum_counts_zero(r.stats.rejects_by_reason@, NUM_REJECT_REASONS as int);
        }
        r
    }

    pub fn config(&self) -> (r: &OLMempoolConfig)
        ensures
            *r == self.config_view(),
    {
        &self.config
    }

    pub fn chain_state(&self) -> (r: &ChainState)
        ensures
            *r == self.chain_view(),
    {
        &self.chain
    }

    pub fn stats(&self) -> (r: &OLMempoolStats)
        ensures
            *r == self.stats_view(),
    {
        &self.stats
    }

    /// Number of transactions held.
    pub fn len(&self) -> (r: usize)
        ensures
            r == self.pool().len(),
    {
        self.entries.len()
    }

    /// The entry at position `i` in priority order.
    pub fn entry_at(&self, i: usize) -> (r: &MempoolEntry)
        requires
            i < self.pool().len(),
        ensures
            r@ == self.pool()[i as int],
    {
        &self.entries[i]
    }

    /// Replaces the chain state that transactions are validated against.
    pub fn set_chain_state(&mut self, chain: ChainState)
        requires
            old(self).wf(),
        ensures
            final(self).wf(),
            final(self).chain_view() == chain,
            final(self).pool() == old(self).pool(),
            final(self).config_view() == old(self).config_view(),
            final(self).stats_view() == old(self).stats_view(),
    {
        self.chain = chain;
    }

    /// Position of the entry with id `id`, if any.
    fn position_of(&self, id: &TxId) -> (r: Option<usize>)
        ensures
            r is None <==> !has_txid(self.pool(), *id),
            r matches Some(i) ==> i < self.pool().len() && self.pool()[i as int].txid == *id,
    {
        let mut i: usize = 0;
        while i < self.entries.len()
            invariant
                i <= self.entries.len(),
                forall|j: int| 0 <= j < i ==> self.pool()[j].txid != *id,
            decreases self.entries.len() - i,
        {
            if self.entries[i].txid.same(id) {
                return Some(i);
            }
            i += 1;
        }
        None
    }

    /// Whether a transaction with id `id` is in the mempool.
    pub fn contains(&self, id: &TxId) -> (r: bool)
        ensures
            r == has_txid(self.pool(), *id),
    {
        self.position_of(id).is_some()
    }

    /// The transactions and sequence numbers pending for `account`, if the
    /// mempool holds any transaction of it.
    pub fn account_state(&self, account: &AccountId) -> (r: Option<AccountMempoolState>)
        ensures
            r is None <==> (forall|i: int| 0 <= i < self.pool().len() ==> self.pool()[i].tx.target() != *account),
            r matches Some(st) ==> st.seq_nos@ == pending_seq_nos(self.pool(), *account),
            r matches Some(st) ==> st.txids@ == self.pool().filter(|e: EntryView| e.tx.target() == *account).map_values(
                |e: EntryView| e.txid,
            ),
    {
        let ghost pool = self.pool();
        let ghost upd = |e: EntryView| is_update_of(e, *account);
        let ghost mine = |e: EntryView| e.tx.target() == *account;
        let mut txids: Vec<TxId> = Vec::new();
        let mut seq_nos: Vec<u64> = Vec::new();
        let mut i: usize = 0;
        while i < self.entries.len()
            invariant
                pool == self.pool(),
                upd == (|e: EntryView| is_update_of(e, *account)),
                mine == (|e: EntryView| e.tx.target() == *account),
                i <= self.entries.len(),
                txids@ == pool.take(i as int).filter(mine).map_values(|e: EntryView| e.txid),
                seq_nos@ == pool.take(i as int).filter(upd).map_values(|e: EntryView| e.tx.seq_no()->0),
            decreases self.entries.len() - i,
        {
            let e = &self.entries[i];
            let target = e.tx.payload().target_account();
            proof {
                lemma_take_filter_step(pool, mine, i as int);
                lemma_take_filter_step(pool, upd, i as int);
            }
            if target.same(account) {
                txids.push(e.txid);
                match e.tx.payload().seq_no() {
                    Some(s) => {
                        seq_nos.push(s);
                    },
                    None => {},
                }
            }
            proof {
                let t = pool.take(i + 1);
                assert(txids@ =~= t.filter(mine).map_values(|e: EntryView| e.txid));
                assert(seq_nos@ =~= t.filter(upd).map_values(|e: EntryView| e.tx.seq_no()->0));
            }
            i += 1;
        }
        assert(pool.take(self.entries.len() as int) =~= pool);
        if txids.len() == 0 {
            proof {
                assert forall|i: int| 0 <= i < pool.len() implies pool[i].tx.target() != *account by {
                    if pool[i].tx.target() == *account {
                        pool.lemma_filter_contains(mine, i);
                    }
                }
            }
            None
        } else {
            proof {
                let f = pool.filter(mine);
                assert(f.len() > 0);
                pool.lemma_filter_pred(mine, 0);
                lemma_filtered_member(pool, mine, 0);
            }
            Some(AccountMempoolState { txids, seq_nos })
        }
    }
}


impl MempoolServiceState {
    /// For every entry, whether `ids` holds its id.
    fn direct_marks(&self, ids: &[TxId]) -> (r: Vec<bool>)
        ensures
            r@.len() == self.pool().len(),
            forall|k: int| 0 <= k < r@.len() ==> r@[k] == ids@.contains(#[trigger] self.pool()[k].txid),
    {
        let mut out: Vec<bool> = Vec::new();
        let mut i: usize = 0;
        while i < self.entries.len()
            invariant
                i <= self.entries.len(),
                out@.len() == i,
                forall|k: int| 0 <= k < i ==> out@[k] == ids@.contains(#[trigger] self.pool()[k].txid),
            decreases self.entries.len() - i,
        {
            out.push(ids_contain(ids, &self.entries[i].txid));
            i += 1;
        }
        out
    }

    /// For every entry, whether it leaves the pool when `ids` are removed.
    fn drop_marks(&self, ids: &[TxId], cascade: bool) -> (r: Vec<bool>)
        ensures
            r@.len() == self.pool().len(),
            forall|k: int|
                0 <= k < r@.len() ==> r@[k] == dropped(self.pool(), ids@, cascade, #[trigger] self.pool()[k]),
    {
        let ghost pool = self.pool();
        let direct = self.direct_marks(ids);
        let n = self.entries.len();
        let mut out: Vec<bool> = Vec::new();
        let mut j: usize = 0;
        while j < n
            invariant
                pool == self.pool(),
                n == pool.len(),
                direct@.len() == n,
                forall|k: int| 0 <= k < n ==> direct@[k] == ids@.contains(#[trigger] pool[k].txid),
                j <= n,
                out@.len() == j,
                forall|k: int| 0 <= k < j ==> out@[k] == dropped(pool, ids@, cascade, #[trigger] pool[k]),
            decreases n - j,
        {
            let e = &self.entries[j];
            let mut d = direct[j];
            if !d && cascade {
                match e.tx.payload().seq_no() {
                    Some(seq) => {
                        let target = e.tx.payload().target_account();
                        let mut k: usize = 0;
                        while k < n
                            invariant
                                pool == self.pool(),
                                n == pool.len(),
                                direct@.len() == n,
                                forall|m: int| 0 <= m < n ==> direct@[m] == ids@.contains(#[trigger] pool[m].txid),
                                j < n,
                                pool[j as int].tx.seq_no() == Some(seq),
                                target == pool[j as int].tx.target(),
                                k <= n,
                                !d ==> forall|m: int|
                                    0 <= m < k ==> !(ids@.contains(#[trigger] pool[m].txid) && pool[m].tx.target()
                                        == target && removal_floor(pool[m]) <= seq),
                                d ==> cascaded(pool, ids@, pool[j as int]),
                            decreases n - k,
                        {
                            if !d && direct[k] {
                                let other = &self.entries[k];
                                let floor = match other.tx.payload().seq_no() {
                                    Some(s) => s,
                                    None => u64::MAX,
                                };
                                if other.tx.payload().target_account().same(&target) && floor <= seq {
                                    d = true;
                                    assert(ids@.contains(pool[k as int].txid));
                                }
                            }
                            k += 1;
                        }
                    },
                    None => {},
                }
            }
            out.push(d);
            j += 1;
        }
        out
    }

    /// The ids that removing `ids` (with `cascade`) would take out, in
    /// priority order, without removing them.
    pub fn planned_removals(&self, ids: &[TxId], cascade: bool) -> (r: Vec<TxId>)
        ensures
            r@ == removed_ids(self.pool(), ids@, cascade),
    {
        let ghost pool = self.pool();
        let ghost gone = |e: EntryView| dropped(pool, ids@, cascade, e);
        let marks = self.drop_marks(ids, cascade);
        let mut out: Vec<TxId> = Vec::new();
        let mut j: usize = 0;
        while j < self.entries.len()
            invariant
                pool == self.pool(),
                gone == (|e: EntryView| dropped(pool, ids@, cascade, e)),
                marks@.len() == pool.len(),
                forall|k: int| 0 <= k < pool.len() ==> marks@[k] == dropped(pool, ids@, cascade, #[trigger] pool[k]),
                j <= pool.len(),
                out@ == pool.take(j as int).filter(gone).map_values(|e: EntryView| e.txid),
            decreases self.entries.len() - j,
        {
            proof {
                lemma_take_filter_step(pool, gone, j as int);
            }
            if marks[j] {
                out.push(self.entries[j].txid);
            }
            proof {
                assert(out@ =~= pool.take(j + 1).filter(gone).map_values(|e: EntryView| e.txid));
            }
            j += 1;
        }
        assert(pool.take(pool.len() as int) =~= pool);
        out
    }

    /// Removes the transactions with ids in `ids`; with `cascade`, also the
    /// later updates of their accounts (see [`dropped`]). Returns the removed
    /// ids in priority order.
    #[verifier::rlimit(30)]
    pub fn remove_transactions(&mut self, ids: &[TxId], cascade: bool) -> (r: Vec<TxId>)
        requires
            old(self).wf(),
        ensures
            final(self).wf(),
            final(self).pool() == after_removal(old(self).pool(), ids@, cascade),
            r@ == removed_ids(old(self).pool(), ids@, cascade),
            final(self).config_view() == old(self).config_view(),
            final(self).chain_view() == old(self).chain_view(),
            final(self).stats_view().enqueues_accepted == old(self).stats_view().enqueues_accepted,
            final(self).stats_view().enqueues_rejected == old(self).stats_view().enqueues_rejected,
            final(self).stats_view().rejects_by_reason@ == old(self).stats_view().rejects_by_reason@,
            final(self).stats_view().evictions == old(self).stats_view().evictions,
    {
        let ghost pool0 = self.pool();
        let ghost keep = |e: EntryView| !dropped(pool0, ids@, cascade, e);
        let ghost gone = |e: EntryView| dropped(pool0, ids@, cascade, e);
        let marks = self.drop_marks(ids, cascade);
        let n = self.entries.len();
        let mut removed: Vec<TxId> = Vec::new();
        let mut removed_bytes: usize = 0;
        let mut i: usize = 0;
        let mut j: usize = 0;
        while j < n
            invariant
                n == pool0.len(),
                keep == (|e: EntryView| !dropped(pool0, ids@, cascade, e)),
                gone == (|e: EntryView| dropped(pool0, ids@, cascade, e)),
                marks@.len() == n,
                forall|k: int| 0 <= k < n ==> marks@[k] == dropped(pool0, ids@, cascade, #[trigger] pool0[k]),
                j <= n,
                i == pool0.take(j as int).filter(keep).len(),
                self.pool() == pool0.take(j as int).filter(keep) + pool0.skip(j as int),
                removed@ == pool0.take(j as int).filter(gone).map_values(|e: EntryView| e.txid),
                sum_sizes(self.pool()) + removed_bytes == sum_sizes(pool0),
                sound_entries(self.pool()),
                self.config == old(self).config,
                self.chain == old(self).chain,
                self.stats == old(self).stats,
                old(self).stats.total_bytes == sum_sizes(pool0),
            decreases n - j,
        {
            let ghost cur = self.pool();
            let ghost f = pool0.take(j as int).filter(keep);
            proof {
                lemma_take_filter_step(pool0, keep, j as int);
                lemma_take_filter_step(pool0, gone, j as int);
                assert(cur[i as int] == pool0[j as int]);
                assert(pool0.skip(j as int).drop_first() =~= pool0.skip(j + 1));
            }
            if marks[j] {
                let e = self.entries.remove(i);
                proof {
                    assert(self.pool() =~= cur.remove(i as int));
                    lemma_sum_sizes_remove(cur, i as int);
                    lemma_sound_remove(cur, i as int);
                    assert(self.pool() =~= f + pool0.skip(j + 1));
                }
                removed.push(e.txid);
                removed_bytes = removed_bytes + e.size_bytes;
                proof {
                    let g = pool0.take(j as int).filter(gone);
                    assert(removed@ =~= g.push(pool0[j as int]).map_values(|e: EntryView| e.txid));
                }
                i = i;
            } else {
                proof {
                    assert(f.push(pool0[j as int]) + pool0.skip(j + 1) =~= cur);
                }
                i = i + 1;
            }
            j = j + 1;
        }
        proof {
            assert(pool0.take(n as int) =~= pool0);
            assert(pool0.skip(n as int) =~= Seq::<EntryView>::empty());
            assert(self.pool() =~= pool0.filter(keep));
        }
        self.stats.mempool_size = self.entries.len();
        self.stats.total_bytes = self.stats.total_bytes - removed_bytes;
        removed
    }
}


/// What adding `tx` at time `ts` to `s0` gives: the new state `s1` and the
/// result `r`. The checks run in this order: a transaction already present is
/// accepted again without change (and counted as a duplicate rejection); one
/// whose encoding exceeds the size limit, or that would exceed the count or
/// byte limits, is rejected and counted; one that fails validation is refused
/// and counted under the reason its error maps to. Otherwise the pending update that `tx` replaces
/// leaves, and `tx` goes before the first entry its ordering key precedes.
pub open spec fn add_outcome(
    s0: MempoolServiceState,
    s1: MempoolServiceState,
    tx: OLTransactionView,
    ts: u64,
    r: OLMempoolResult<TxId>,
) -> bool {
    forall|id: TxId| #[trigger] is_txid_of(id, tx) ==> add_outcome_for(s0, s1, tx, ts, r, id)
}

/// [`add_outcome`] for the transaction's id `id`.
pub open spec fn add_outcome_for(
    s0: MempoolServiceState,
    s1: MempoolServiceState,
    tx: OLTransactionView,
    ts: u64,
    r: OLMempoolResult<TxId>,
    id: TxId,
) -> bool {
    {
        let pool = s0.pool();
        let cfg = s0.config_view();
        let st0 = s0.stats_view();
        let st1 = s1.stats_view();
        let size = enc_tx(tx).len();
        let verdict = spec_validate(id, tx, s0.chain_view(), pending_range(pool, tx.target()));
        if has_txid(pool, id) {
            &&& r == Ok::<TxId, OLMempoolError>(id)
            &&& s1.pool() == pool
            &&& rejected_once(st0, st1, OLMempoolRejectReason::Duplicate)
        } else if size > cfg.max_tx_size {
            &&& r == Err::<TxId, OLMempoolError>(
                OLMempoolError::TransactionTooLarge { size: size as usize, limit: cfg.max_tx_size },
            )
            &&& s1.pool() == pool
            &&& rejected_once(st0, st1, OLMempoolRejectReason::TransactionTooLarge)
        } else if pool.len() >= cfg.max_tx_count {
            &&& r == Err::<TxId, OLMempoolError>(
                OLMempoolError::MempoolFull { current: pool.len() as usize, limit: cfg.max_tx_count },
            )
            &&& s1.pool() == pool
            &&& rejected_once(st0, st1, OLMempoolRejectReason::MempoolFull)
        } else if st0.total_bytes + size > cfg.max_mempool_bytes {
            &&& r == Err::<TxId, OLMempoolError>(
                OLMempoolError::MempoolByteLimitExceeded {
                    current: if st0.total_bytes + size <= usize::MAX {
                        (st0.total_bytes + size) as usize
                    } else {
                        usize::MAX
                    },
                    limit: cfg.max_mempool_bytes,
                },
            )
            &&& s1.pool() == pool
            &&& rejected_once(st0, st1, OLMempoolRejectReason::MempoolFull)
        } else if verdict is Err {
            &&& r == Err::<TxId, OLMempoolError>(verdict->Err_0)
            &&& s1.pool() == pool
            &&& match spec_reject_reason(verdict->Err_0) {
                Some(reason) => rejected_once(st0, st1, reason),
                None => counters_unchanged(st0, st1),
            }
        } else {
            let base = without_replaced(pool, tx);
            let key = MempoolOrderingKey::of_transaction(tx, ts);
            &&& r == Ok::<TxId, OLMempoolError>(id)
            &&& s1.pool() == base.insert(
                insert_pos(base, key),
                EntryView { txid: id, tx, key, size: size as usize },
            )
            &&& st1.enqueues_accepted == sat_inc(st0.enqueues_accepted)
            &&& st1.enqueues_rejected == st0.enqueues_rejected
            &&& st1.rejects_by_reason@ == st0.rejects_by_reason@
            &&& st1.evictions == st0.evictions
        }
    }
}

impl MempoolServiceState {
    /// Range of the sequence numbers pending for `account`.
    pub fn pending_seq_no_range(&self, account: &AccountId) -> (r: Option<(u64, u64)>)
        ensures
            r == pending_range(self.pool(), *account),
    {
        match self.account_state(account) {
            Some(st) => st.seq_no_range(),
            None => {
                proof {
                    let pool = self.pool();
                    let upd = |e: EntryView| is_update_of(e, *account);
                    if pool.filter(upd).len() > 0 {
                        lemma_filtered_member(pool, upd, 0);
                        pool.lemma_filter_pred(upd, 0);
                        let i = choose|i: int| 0 <= i < pool.len() && pool[i] == pool.filter(upd)[0];
                        assert(pool[i].tx.target() == *account);
                    }
                    assert(pending_seq_nos(pool, *account).len() == 0);
                }
                None
            },
        }
    }

    /// Position of the first pending update of `account` with sequence
    /// number `seq`.
    fn same_seq_position(&self, account: &AccountId, seq: u64) -> (r: Option<usize>)
        ensures
            r is None ==> !exists|j: int| first_same_seq(self.pool(), *account, seq, j),
            r matches Some(j) ==> first_same_seq(self.pool(), *account, seq, j as int),
    {
        let mut i: usize = 0;
        while i < self.entries.len()
            invariant
                i <= self.entries.len(),
                forall|k: int|
                    0 <= k < i ==> !(is_update_of(#[trigger] self.pool()[k], *account)
                        && self.pool()[k].tx.seq_no() == Some(seq)),
            decreases self.entries.len() - i,
        {
            let e = &self.entries[i];
            if e.tx.payload().target_account().same(account) {
                if let Some(s) = e.tx.payload().seq_no() {
                    if s == seq {
                        return Some(i);
                    }
                }
            }
            i += 1;
        }
        None
    }

    /// The pending transaction that `tx` would replace: for a snark account
    /// update, the first pending update of its account with its sequence
    /// number.
    pub fn find_account_tx_with_same_seqno(&self, tx: &OLTransaction) -> (r: Option<TxId>)
        ensures
            tx@.seq_no() is None ==> r is None,
            tx@.seq_no() matches Some(seq) ==> {
                &&& r is None <==> !exists|j: int| first_same_seq(self.pool(), tx@.target(), seq, j)
                &&& r matches Some(id) ==> exists|j: int|
                    first_same_seq(self.pool(), tx@.target(), seq, j) && self.pool()[j].txid == id
            },
    {
        match tx.payload().seq_no() {
            None => None,
            Some(seq) => {
                let target = tx.payload().target_account();
                match self.same_seq_position(&target, seq) {
                    Some(j) => {
                        let id = self.entries[j].txid;
                        assert(first_same_seq(self.pool(), tx@.target(), seq, j as int) && self.pool()[j as int].txid
                            == id);
                        Some(id)
                    },
                    None => None,
                }
            },
        }
    }

    /// Where an entry with ordering key `key` goes.
    fn insert_position(&self, key: &MempoolOrderingKey) -> (r: usize)
        ensures
            r == insert_pos(self.pool(), *key),
            r <= self.pool().len(),
    {
        let mut i: usize = 0;
        while i < self.entries.len()
            invariant
                i <= self.entries.len(),
                forall|k: int| 0 <= k < i ==> !key.precedes(#[trigger] self.pool()[k].key),
            decreases self.entries.len() - i,
        {
            if key.is_before(&self.entries[i].ordering_key) {
                proof {
                    assert(first_after(self.pool(), *key, i as int));
                    let c = choose|c: int| first_after(self.pool(), *key, c);
                    if c < i {
                        assert(!key.precedes(self.pool()[c].key));
                    } else if c > i {
                        assert(!key.precedes(self.pool()[i as int].key));
                    }
                }
                return i;
            }
            i += 1;
        }
        i
    }

    /// Counts a rejection for `reason`.
    fn update_stats_on_reject(&mut self, reason: OLMempoolRejectReason)
        requires
            old(self).wf(),
        ensures
            final(self).wf(),
            final(self).pool() == old(self).pool(),
            final(self).config == old(self).config,
            final(self).chain == old(self).chain,
            rejected_once(old(self).stats, final(self).stats, reason),
    {
        let ghost c0 = self.stats.rejects_by_reason@;
        let ghost i = reason_index(reason);
        self.stats.enqueues_rejected = self.stats.enqueues_rejected.saturating_add(1);
        self.stats.rejects_by_reason.increment(reason);
        proof {
            let n = NUM_REJECT_REASONS as int;
            lemma_sum_counts_update(c0, i, sat_inc(c0[i]), n);
            lemma_count_le_sum(c0, i, n);
        }
    }

    /// Takes out the pending update that `tx` replaces, if any.
    fn remove_replaced(&mut self, tx: &OLTransaction)
        requires
            old(self).wf(),
        ensures
            final(self).wf(),
            final(self).pool() == without_replaced(old(self).pool(), tx@),
            final(self).config == old(self).config,
            final(self).chain == old(self).chain,
            counters_unchanged(old(self).stats, final(self).stats),
            final(self).stats.total_bytes <= old(self).stats.total_bytes,
    {
        let ghost pool0 = self.pool();
        if let Some(seq) = tx.payload().seq_no() {
            let target = tx.payload().target_account();
            assert(tx@.seq_no() == Some(seq) && tx@.target() == target);
            if let Some(j) = self.same_seq_position(&target, seq) {
                let ghost cur = self.pool();
                let old_entry = self.entries.remove(j);
                proof {
                    assert(self.pool() =~= cur.remove(j as int));
                    lemma_sum_sizes_remove(cur, j as int);
                    lemma_sound_remove(cur, j as int);
                    assert(first_same_seq(cur, target, seq, j as int));
                    let c = choose|c: int| first_same_seq(cur, target, seq, c);
                    if c < j {
                        assert(!(is_update_of(cur[c], target) && cur[c].tx.seq_no() == Some(seq)));
                    } else if c > j {
                        assert(!(is_update_of(cur[j as int], target) && cur[j as int].tx.seq_no() == Some(seq)));
                    }
                    assert(c == j);
                    assert(self.pool() == without_replaced(pool0, tx@));
                }
                self.stats.mempool_size = self.entries.len();
                self.stats.total_bytes = self.stats.total_bytes - old_entry.size_bytes;
            } else {
                assert(self.pool() == without_replaced(pool0, tx@));
            }
        } else {
            assert(self.pool() == without_replaced(pool0, tx@));
        }
    }

    /// Puts `entry`, whose id is new to the pool, at its place in priority
    /// order, and counts it as accepted.
    fn insert_entry(&mut self, entry: MempoolEntry)
        requires
            old(self).wf(),
            entry_consistent(entry@),
            !has_txid(old(self).pool(), entry.txid),
            old(self).stats.total_bytes + entry.size_bytes <= usize::MAX,
        ensures
            final(self).wf(),
            final(self).pool() == old(self).pool().insert(insert_pos(old(self).pool(), entry.ordering_key), entry@),
            final(self).config == old(self).config,
            final(self).chain == old(self).chain,
            final(self).stats.enqueues_accepted == sat_inc(old(self).stats.enqueues_accepted),
            final(self).stats.enqueues_rejected == old(self).stats.enqueues_rejected,
            final(self).stats.rejects_by_reason@ == old(self).stats.rejects_by_reason@,
            final(self).stats.evictions == old(self).stats.evictions,
            final(self).stats.total_bytes == old(self).stats.total_bytes + entry.size_bytes,
    {
        let pos = self.insert_position(&entry.ordering_key);
        let ghost base = self.pool();
        let ghost ev = entry@;
        let size = entry.size_bytes;
        self.entries.insert(pos, entry);
        proof {
            assert(self.pool() =~= base.insert(pos as int, ev));
            lemma_sum_sizes_insert(base, pos as int, ev);
            lemma_sound_insert(base, pos as int, ev);
        }
        self.stats.mempool_size = self.entries.len();
        self.stats.total_bytes = self.stats.total_bytes + size;
        self.stats.enqueues_accepted = self.stats.enqueues_accepted.saturating_add(1);
    }

    /// Adds transaction `tx`, arrived at `timestamp_micros`; see [`add_outcome`].
    pub fn add_transaction_at(&mut self, tx: OLTransaction, timestamp_micros: u64) -> (r: OLMempoolResult<TxId>)
        requires
            old(self).wf(),
            merkle_input_fits(enc_tx_data(tx@.data).len()),
        ensures
            final(self).wf(),
            final(self).config_view() == old(self).config_view(),
            final(self).chain_view() == old(self).chain_view(),
            add_outcome(*old(self), *final(self), tx@, timestamp_micros, r),
    {
        let ghost s0 = *self;
        let ghost txv = tx@;
        let txid = tx.compute_txid();
        let r = self.add_checked(tx, txid, timestamp_micros);
        proof {
            assert forall|id: TxId| #[trigger] is_txid_of(id, txv) implies add_outcome_for(
                s0,
                *self,
                txv,
                timestamp_micros,
                r,
                id,
            ) by {
                lemma_txid_eq(id, txid);
            }
        }
        r
    }

    /// [`MempoolServiceState::add_transaction_at`] for `tx` with id `txid`.
    #[verifier::rlimit(40)]
    fn add_checked(&mut self, tx: OLTransaction, txid: TxId, timestamp_micros: u64) -> (r: OLMempoolResult<TxId>)
        requires
            old(self).wf(),
            is_txid_of(txid, tx@),
        ensures
            final(self).wf(),
            final(self).config_view() == old(self).config_view(),
            final(self).chain_view() == old(self).chain_view(),
            add_outcome_for(*old(self), *final(self), tx@, timestamp_micros, r, txid),
    {
        if self.contains(&txid) {
            self.update_stats_on_reject(OLMempoolRejectReason::Duplicate);
            return Ok(txid);
        }
        let bytes = encode_tx(&tx);
        let size = bytes.len();
        if size > self.config.max_tx_size {
            self.update_stats_on_reject(OLMempoolRejectReason::TransactionTooLarge);
            return Err(OLMempoolError::TransactionTooLarge { size, limit: self.config.max_tx_size });
        }
        if self.entries.len() >= self.config.max_tx_count {
            self.update_stats_on_reject(OLMempoolRejectReason::MempoolFull);
            return Err(
                OLMempoolError::MempoolFull { current: self.entries.len(), limit: self.config.max_tx_count },
            );
        }
        let total = self.stats.total_bytes;
        if total > self.config.max_mempool_bytes || size > self.config.max_mempool_bytes - total {
            self.update_stats_on_reject(OLMempoolRejectReason::MempoolFull);
            return Err(
                OLMempoolError::MempoolByteLimitExceeded {
                    current: total.saturating_add(size),
                    limit: self.config.max_mempool_bytes,
                },
            );
        }
        let target = tx.payload().target_account();
        let range = self.pending_seq_no_range(&target);
        match validate_transaction(txid, &tx, &self.chain, range) {
            Err(e) => {
                match OLMempoolRejectReason::from_error(&e) {
                    Some(reason) => self.update_stats_on_reject(reason),
                    None => {},
                }
                return Err(e);
            },
            Ok(()) => {},
        }
        let ghost pool0 = self.pool();
        self.remove_replaced(&tx);
        let key = MempoolOrderingKey::for_transaction(&tx, timestamp_micros);
        let entry = MempoolEntry::new(txid, tx, key, size);
        proof {
            if has_txid(self.pool(), txid) {
                let k = choose|k: int| 0 <= k < self.pool().len() && self.pool()[k].txid == txid;
                lemma_base_member(pool0, entry@.tx, k);
            }
        }
        self.insert_entry(entry);
        Ok(txid)
    }

    /// Adds transaction `tx`, stamped with the current time (see
    /// [`MempoolServiceState::add_transaction_at`]). The outcome is that of
    /// `add_transaction_at` for some timestamp.
    pub fn add_transaction(&mut self, tx: OLTransaction) -> (r: OLMempoolResult<TxId>)
        requires
            old(self).wf(),
            merkle_input_fits(enc_tx_data(tx@.data).len()),
        ensures
            final(self).wf(),
            final(self).config_view() == old(self).config_view(),
            final(self).chain_view() == old(self).chain_view(),
            exists|ts: u64| add_outcome(*old(self), *final(self), tx@, ts, r),
    {
        let ts = now_micros();
        self.add_transaction_at(tx, ts)
    }
}

/// Inserting a consistent entry with a new id keeps the entries sound.
proof fn lemma_sound_insert(base: Seq<EntryView>, pos: int, ev: EntryView)
    requires
        sound_entries(base),
        entry_consistent(ev),
        !has_txid(base, ev.txid),
        0 <= pos <= base.len(),
    ensures
        sound_entries(base.insert(pos, ev)),
{
    let p = base.insert(pos, ev);
    assert forall|a: int| 0 <= a < p.len() implies (a == pos && p[a] == ev) || (a != pos && p[a] == base[
        if a < pos { a } else { a - 1 }
    ]) by {}
    assert forall|a: int, b: int| 0 <= a < p.len() && 0 <= b < p.len() && a != b implies p[a].txid != p[b].txid by {
        let a0 = if a < pos { a } else { a - 1 };
        let b0 = if b < pos { b } else { b - 1 };
        if a == pos {
            assert(p[b] == base[b0]);
        } else if b == pos {
            assert(p[a] == base[a0]);
        } else {
            assert(p[a] == base[a0]);
            assert(p[b] == base[b0]);
            assert(a0 != b0);
        }
    }
    assert forall|a: int| 0 <= a < p.len() implies entry_consistent(#[trigger] p[a]) by {
        if a != pos {
            let a0 = if a < pos { a } else { a - 1 };
            assert(p[a] == base[a0]);
        }
    }
}

/// An entry of the pool left after replacement comes from the pool.
proof fn lemma_base_member(pool: Seq<EntryView>, tx: OLTransactionView, k: int)
    requires
        0 <= k < without_replaced(pool, tx).len(),
    ensures
        exists|i: int| 0 <= i < pool.len() && pool[i] == without_replaced(pool, tx)[k],
{
    let b = without_replaced(pool, tx);
    if b != pool {
        let seq = tx.seq_no()->0;
        let j = choose|j: int| first_same_seq(pool, tx.target(), seq, j);
        let i = if k < j { k } else { k + 1 };
        assert(pool[i] == b[k]);
    } else {
        assert(pool[k] == b[k]);
    }
}

/// A transaction whose submission succeeded is held afterwards, under its
/// id.
pub proof fn lemma_accepted_is_held(
    s0: MempoolServiceState,
    s1: MempoolServiceState,
    tx: OLTransactionView,
    id: TxId,
    ts: u64,
    r: OLMempoolResult<TxId>,
)
    requires
        is_txid_of(id, tx),
        add_outcome(s0, s1, tx, ts, r),
        r is Ok,
    ensures
        r == Ok::<TxId, OLMempoolError>(id),
        has_txid(s1.pool(), id),
{
    assert(add_outcome_for(s0, s1, tx, ts, r, id));
    let pool = s0.pool();
    if !has_txid(pool, id) {
        let base = without_replaced(pool, tx);
        let key = MempoolOrderingKey::of_transaction(tx, ts);
        let p = insert_pos(base, key);
        if exists|i: int| first_after(base, key, i) {
            let c = choose|i: int| first_after(base, key, i);
            assert(0 <= c < base.len());
        }
        assert(0 <= p <= base.len());
        assert(s1.pool()[p].txid == id);
    }
}

/// A submission never takes the mempool over its count or byte limits: a
/// pool within them stays within them.
pub proof fn lemma_add_respects_limits(
    s0: MempoolServiceState,
    s1: MempoolServiceState,
    tx: OLTransactionView,
    id: TxId,
    ts: u64,
    r: OLMempoolResult<TxId>,
)
    requires
        s0.wf(),
        s1.wf(),
        s1.config_view() == s0.config_view(),
        is_txid_of(id, tx),
        add_outcome(s0, s1, tx, ts, r),
        s0.pool().len() <= s0.config_view().max_tx_count,
        s0.stats_view().total_bytes <= s0.config_view().max_mempool_bytes,
    ensures
        s1.pool().len() <= s1.config_view().max_tx_count,
        s1.stats_view().total_bytes <= s1.config_view().max_mempool_bytes,
{
    assert(add_outcome_for(s0, s1, tx, ts, r, id));
    let pool = s0.pool();
    let base = without_replaced(pool, tx);
    let key = MempoolOrderingKey::of_transaction(tx, ts);
    let p = insert_pos(base, key);
    if exists|i: int| first_after(base, key, i) {
        let c = choose|i: int| first_after(base, key, i);
        assert(0 <= c < base.len());
    }
    assert(0 <= p <= base.len());
    if base != pool {
        let j = choose|j: int| first_same_seq(pool, tx.target(), tx.seq_no()->0, j);
        lemma_sum_sizes_remove(pool, j);
    }
    assert(sum_sizes(base) <= sum_sizes(pool));
    let e = EntryView { txid: id, tx, key, size: enc_tx(tx).len() as usize };
    lemma_sum_sizes_insert(base, p, e);
}

/// No two pending updates of one account carry the same sequence number.
pub open spec fn one_update_per_seq(pool: Seq<EntryView>) -> bool {
    forall|i: int, j: int|
        0 <= i < pool.len() && 0 <= j < pool.len() && i != j && (#[trigger] pool[i]).tx.seq_no() is Some
            ==> !(pool[i].tx.target() == (#[trigger] pool[j]).tx.target() && pool[i].tx.seq_no()
            == pool[j].tx.seq_no())
}

/// A submission replaces rather than duplicates: when no two pending updates
/// of an account share a sequence number, none do after it.
#[verifier::rlimit(30)]
pub proof fn lemma_add_keeps_one_update_per_seq(
    s0: MempoolServiceState,
    s1: MempoolServiceState,
    tx: OLTransactionView,
    id: TxId,
    ts: u64,
    r: OLMempoolResult<TxId>,
)
    requires
        is_txid_of(id, tx),
        add_outcome(s0, s1, tx, ts, r),
        one_update_per_seq(s0.pool()),
    ensures
        one_update_per_seq(s1.pool()),
{
    assert(add_outcome_for(s0, s1, tx, ts, r, id));
    let pool = s0.pool();
    if s1.pool() != pool {
        let base = without_replaced(pool, tx);
        let key = MempoolOrderingKey::of_transaction(tx, ts);
        let p = insert_pos(base, key);
        if exists|i: int| first_after(base, key, i) {
            let c = choose|i: int| first_after(base, key, i);
            assert(0 <= c < base.len());
        }
        assert(0 <= p <= base.len());
        let e = EntryView { txid: id, tx, key, size: enc_tx(tx).len() as usize };
        let q = base.insert(p, e);
        assert(s1.pool() == q);
        // Positions of `base` in `pool`.
        let jr: int = if base != pool {
            choose|j: int| first_same_seq(pool, tx.target(), tx.seq_no()->0, j)
        } else {
            pool.len() as int
        };
        assert forall|k: int| 0 <= k < base.len() implies base[k] == pool[if k < jr { k } else { k + 1 }] by {}
        // No entry of `base` is an update of `tx`'s account with its sequence number.
        assert forall|k: int| 0 <= k < base.len() && (#[trigger] base[k]).tx.seq_no() is Some implies !(
        base[k].tx.target() == tx.target() && base[k].tx.seq_no() == tx.seq_no()) by {
            let k0 = if k < jr { k } else { k + 1 };
            if base[k].tx.target() == tx.target() && base[k].tx.seq_no() == tx.seq_no() {
                if base != pool {
                    assert(pool[k0].tx.target() == pool[jr].tx.target() && pool[k0].tx.seq_no() == pool[jr].tx.seq_no());
                    assert(k0 != jr);
                } else {
                    assert(is_update_of(pool[k], tx.target()) && pool[k].tx.seq_no() == Some(tx.seq_no()->0));
                    lemma_first_same_seq_exists(pool, tx.target(), tx.seq_no()->0, k);
                }
            }
        }
        assert forall|a: int, b: int|
            0 <= a < q.len() && 0 <= b < q.len() && a != b && (#[trigger] q[a]).tx.seq_no() is Some implies !(
            q[a].tx.target() == (#[trigger] q[b]).tx.target() && q[a].tx.seq_no() == q[b].tx.seq_no()) by {
            let a0 = if a < p { a } else { a - 1 };
            let b0 = if b < p { b } else { b - 1 };
            if a == p {
                assert(q[b] == base[b0]);
            } else if b == p {
                assert(q[a] == base[a0]);
            } else {
                assert(q[a] == base[a0]);
                assert(q[b] == base[b0]);
                let a1 = if a0 < jr { a0 } else { a0 + 1 };
                let b1 = if b0 < jr { b0 } else { b0 + 1 };
                assert(pool[a1] == base[a0]);
                assert(pool[b1] == base[b0]);
            }
        }
    }
}

/// When some pending update of an account carries a sequence number, a
/// first one does.
proof fn lemma_first_same_seq_exists(pool: Seq<EntryView>, account: AccountId, seq: u64, k: int)
    requires
        0 <= k < pool.len(),
        is_update_of(pool[k], account) && pool[k].tx.seq_no() == Some(seq),
    ensures
        exists|j: int| first_same_seq(pool, account, seq, j),
    decreases k,
{
    if forall|m: int| 0 <= m < k ==> !(is_update_of(#[trigger] pool[m], account) && pool[m].tx.seq_no() == Some(seq)) {
        assert(first_same_seq(pool, account, seq, k));
    } else {
        let m = choose|m: int| 0 <= m < k && (is_update_of(#[trigger] pool[m], account) && pool[m].tx.seq_no() == Some(seq));
        lemma_first_same_seq_exists(pool, account, seq, m);
    }
}

/// A refused submission leaves the pool as it was and counts one rejection
/// under the reason of its error (every submission error has one); a
/// transaction not held whose encoding exceeds the size limit is refused as
/// too large.
pub proof fn lemma_add_refusal(
    s0: MempoolServiceState,
    s1: MempoolServiceState,
    tx: OLTransactionView,
    id: TxId,
    ts: u64,
    r: OLMempoolResult<TxId>,
)
    requires
        is_txid_of(id, tx),
        add_outcome(s0, s1, tx, ts, r),
    ensures
        r is Err ==> s1.pool() == s0.pool(),
        r is Err ==> spec_reject_reason(r->Err_0) is Some,
        r is Err ==> s1.stats_view().enqueues_rejected == sat_inc(s0.stats_view().enqueues_rejected),
        r is Err ==> ({
            let k = reason_index(spec_reject_reason(r->Err_0)->0);
            s1.stats_view().rejects_by_reason@ == s0.stats_view().rejects_by_reason@.update(
                k,
                sat_inc(s0.stats_view().rejects_by_reason@[k]),
            )
        }),
        r is Err ==> s1.stats_view().enqueues_accepted == s0.stats_view().enqueues_accepted,
        !has_txid(s0.pool(), id) && enc_tx(tx).len() > s0.config_view().max_tx_size ==> r == Err::<
            TxId,
            OLMempoolError,
        >(
            OLMempoolError::TransactionTooLarge {
                size: enc_tx(tx).len() as usize,
                limit: s0.config_view().max_tx_size,
            },
        ),
{
    assert(add_outcome_for(s0, s1, tx, ts, r, id));
    let v = spec_validate(id, tx, s0.chain_view(), pending_range(s0.pool(), tx.target()));
    lemma_validation_errors_have_reasons(id, tx, s0.chain_view(), pending_range(s0.pool(), tx.target()));
}

/// A submission that inserts a transaction not yet held counts one more
/// acceptance (saturating at `u64::MAX`); every other submission leaves the
/// accepted counter as it is. So the counter never decreases.
pub proof fn lemma_add_counts_acceptance(
    s0: MempoolServiceState,
    s1: MempoolServiceState,
    tx: OLTransactionView,
    id: TxId,
    ts: u64,
    r: OLMempoolResult<TxId>,
)
    requires
        is_txid_of(id, tx),
        add_outcome(s0, s1, tx, ts, r),
    ensures
        (r is Ok && !has_txid(s0.pool(), id)) ==> s1.stats_view().enqueues_accepted == sat_inc(
            s0.stats_view().enqueues_accepted,
        ),
        !(r is Ok && !has_txid(s0.pool(), id)) ==> s1.stats_view().enqueues_accepted
            == s0.stats_view().enqueues_accepted,
        s1.stats_view().enqueues_accepted >= s0.stats_view().enqueues_accepted,
{
    assert(add_outcome_for(s0, s1, tx, ts, r, id));
}

/// Submitting a transaction that was just accepted again is accepted with
/// the same id and leaves the pool as it is.
pub proof fn lemma_add_idempotent(
    s0: MempoolServiceState,
    s1: MempoolServiceState,
    s2: MempoolServiceState,
    tx: OLTransactionView,
    id: TxId,
    t1: u64,
    t2: u64,
    r1: OLMempoolResult<TxId>,
    r2: OLMempoolResult<TxId>,
)
    requires
        is_txid_of(id, tx),
        add_outcome(s0, s1, tx, t1, r1),
        add_outcome(s1, s2, tx, t2, r2),
        r1 is Ok,
    ensures
        r1 == Ok::<TxId, OLMempoolError>(id),
        r2 == r1,
        s2.pool() == s1.pool(),
{
    lemma_accepted_is_held(s0, s1, tx, id, t1, r1);
    assert(add_outcome_for(s1, s2, tx, t2, r2, id));
}

/// Removing ids none of which is in the pool leaves the pool unchanged and
/// removes nothing.
pub proof fn lemma_remove_absent(pool: Seq<EntryView>, ids: Seq<TxId>, cascade: bool)
    requires
        forall|i: int| 0 <= i < pool.len() ==> !ids.contains(#[trigger] pool[i].txid),
    ensures
        after_removal(pool, ids, cascade) == pool,
        removed_ids(pool, ids, cascade) == Seq::<TxId>::empty(),
{
    let keep = |e: EntryView| !dropped(pool, ids, cascade, e);
    let gone = |e: EntryView| dropped(pool, ids, cascade, e);
    assert forall|i: int| 0 <= i < pool.len() implies keep(pool[i]) by {
        if cascaded(pool, ids, pool[i]) {
            let k = choose|k: int|
                0 <= k < pool.len() && ids.contains(#[trigger] pool[k].txid) && pool[k].tx.target() == pool[i].tx.target()
                    && removal_floor(pool[k]) <= pool[i].tx.seq_no()->0;
            assert(!ids.contains(pool[k].txid));
        }
    }
    lemma_filter_all(pool, keep);
    lemma_filter_none(pool, gone);
    assert(pool.filter(gone).map_values(|e: EntryView| e.txid) =~= Seq::<TxId>::empty());
}

/// Filtering with a predicate that every item meets keeps the sequence.
pub proof fn lemma_filter_all<A>(s: Seq<A>, pred: spec_fn(A) -> bool)
    requires
        forall|i: int| 0 <= i < s.len() ==> pred(#[trigger] s[i]),
    ensures
        s.filter(pred) == s,
    decreases s.len(),
{
    reveal(Seq::filter);
    if s.len() > 0 {
        lemma_filter_all(s.drop_last(), pred);
        assert(s.drop_last().push(s.last()) =~= s);
    } else {
        assert(s.filter(pred) =~= s);
    }
}

/// Filtering with a predicate that no item meets gives the empty sequence.
pub proof fn lemma_filter_none<A>(s: Seq<A>, pred: spec_fn(A) -> bool)
    requires
        forall|i: int| 0 <= i < s.len() ==> !pred(#[trigger] s[i]),
    ensures
        s.filter(pred) == Seq::<A>::empty(),
    decreases s.len(),
{
    reveal(Seq::filter);
    if s.len() > 0 {
        lemma_filter_none(s.drop_last(), pred);
    }
    assert(s.filter(pred) =~= Seq::<A>::empty());
}

/// What loading a stored record into `pool` does.
pub enum LoadOutcome {
    /// The bytes are the encoding of no transaction, or not of one with the
    /// stored id: the record is dropped.
    Malformed,
    /// A transaction with that id is already held: nothing changes.
    Present,
    /// The transaction fails validation: the record is dropped.
    Rejected(OLMempoolError),
    /// The transaction is loaded as this entry.
    Loaded(EntryView),
}

pub open spec fn load_outcome(pool: Seq<EntryView>, chain: ChainState, st: StoredView) -> LoadOutcome {
    match decoded_tx(st.bytes) {
        None => LoadOutcome::Malformed,
        Some(tx) => if !is_txid_of(st.txid, tx) {
            LoadOutcome::Malformed
        } else if has_txid(pool, st.txid) {
            LoadOutcome::Present
        } else {
            let verdict = spec_validate(st.txid, tx, chain, pending_range(pool, tx.target()));
            if verdict is Err {
                LoadOutcome::Rejected(verdict->Err_0)
            } else {
                LoadOutcome::Loaded(
                    EntryView {
                        txid: st.txid,
                        tx,
                        key: MempoolOrderingKey::of_transaction(tx, st.ts),
                        size: st.bytes.len() as usize,
                    },
                )
            }
        },
    }
}

/// The pool after an outcome.
pub open spec fn pool_after(pool: Seq<EntryView>, o: LoadOutcome) -> Seq<EntryView> {
    match o {
        LoadOutcome::Loaded(e) => pool.insert(insert_pos(pool, e.key), e),
        _ => pool,
    }
}

/// The pool after loading the records `sts` in order.
#[verifier::opaque]
pub open spec fn load_pool(pool: Seq<EntryView>, chain: ChainState, sts: Seq<StoredView>) -> Seq<EntryView>
    decreases sts.len(),
{
    if sts.len() == 0 {
        pool
    } else {
        let p = load_pool(pool, chain, sts.drop_last());
        pool_after(p, load_outcome(p, chain, sts.last()))
    }
}

/// The ids of the records dropped while loading `sts`, in order.
#[verifier::opaque]
pub open spec fn load_dropped(pool: Seq<EntryView>, chain: ChainState, sts: Seq<StoredView>) -> Seq<TxId>
    decreases sts.len(),
{
    if sts.len() == 0 {
        Seq::empty()
    } else {
        let p = load_pool(pool, chain, sts.drop_last());
        let prev = load_dropped(pool, chain, sts.drop_last());
        match load_outcome(p, chain, sts.last()) {
            LoadOutcome::Malformed => prev.push(sts.last().txid),
            LoadOutcome::Rejected(_) => prev.push(sts.last().txid),
            _ => prev,
        }
    }
}

/// The rejection reasons counted while loading `sts`, in order.
#[verifier::opaque]
pub open spec fn load_rejects(pool: Seq<EntryView>, chain: ChainState, sts: Seq<StoredView>) -> Seq<
    OLMempoolRejectReason,
>
    decreases sts.len(),
{
    if sts.len() == 0 {
        Seq::empty()
    } else {
        let p = load_pool(pool, chain, sts.drop_last());
        let prev = load_rejects(pool, chain, sts.drop_last());
        match load_outcome(p, chain, sts.last()) {
            LoadOutcome::Rejected(e) => match spec_reject_reason(e) {
                Some(reason) => prev.push(reason),
                None => prev,
            },
            _ => prev,
        }
    }
}

/// How many records loading `sts` loads.
#[verifier::opaque]
pub open spec fn load_count(pool: Seq<EntryView>, chain: ChainState, sts: Seq<StoredView>) -> nat
    decreases sts.len(),
{
    if sts.len() == 0 {
        0
    } else {
        let p = load_pool(pool, chain, sts.drop_last());
        load_count(pool, chain, sts.drop_last()) + if load_outcome(p, chain, sts.last()) is Loaded {
            1nat
        } else {
            0nat
        }
    }
}

/// `n` more, saturating.
pub open spec fn sat_add(x: u64, n: nat) -> u64 {
    if x + n <= u64::MAX {
        (x + n) as u64
    } else {
        u64::MAX
    }
}

/// How many of `rs` have the index `k`.
pub open spec fn count_reason(rs: Seq<OLMempoolRejectReason>, k: int) -> nat {
    rs.filter(|r: OLMempoolRejectReason| reason_index(r) == k).len()
}

impl MempoolServiceState {
    /// Loads one stored record; returns whether it is to be dropped from the
    /// database.
    #[verifier::rlimit(30)]
    fn load_one(&mut self, d: &MempoolTxData) -> (dropped: bool)
        requires
            old(self).wf(),
            old(self).stats.total_bytes + d.tx_bytes@.len() <= usize::MAX,
            merkle_input_fits(d.tx_bytes@.len()),
        ensures
            final(self).wf(),
            final(self).config == old(self).config,
            final(self).chain == old(self).chain,
            ({
                let o = load_outcome(old(self).pool(), old(self).chain, d@);
                &&& final(self).pool() == pool_after(old(self).pool(), o)
                &&& dropped == (o is Malformed || o is Rejected)
                &&& if o is Loaded {
                    &&& final(self).stats.enqueues_accepted == sat_inc(old(self).stats.enqueues_accepted)
                    &&& final(self).stats.enqueues_rejected == old(self).stats.enqueues_rejected
                    &&& final(self).stats.rejects_by_reason@ == old(self).stats.rejects_by_reason@
                    &&& final(self).stats.evictions == old(self).stats.evictions
                } else if o is Rejected && spec_reject_reason(o->Rejected_0) is Some {
                    rejected_once(old(self).stats, final(self).stats, spec_reject_reason(o->Rejected_0)->0)
                } else {
                    counters_unchanged(old(self).stats, final(self).stats)
                }
            }),
            final(self).stats.total_bytes <= old(self).stats.total_bytes + d.tx_bytes@.len(),
    {
        let tx = match decode_tx(d.tx_bytes.as_slice()) {
            Some(tx) => tx,
            None => {
                return true;
            },
        };
        assert(enc_tx(tx@) == enc_tx_data(tx@.data) + enc_proofs(tx@.proofs));
        let id = tx.compute_txid();
        if !id.same(&d.txid) {
            proof {
                if is_txid_of(d.txid, tx@) {
                    lemma_txid_eq(id, d.txid);
                }
            }
            return true;
        }
        if self.contains(&d.txid) {
            return false;
        }
        let target = tx.payload().target_account();
        let range = self.pending_seq_no_range(&target);
        match validate_transaction(d.txid, &tx, &self.chain, range) {
            Err(e) => {
                match OLMempoolRejectReason::from_error(&e) {
                    Some(reason) => {
                        self.update_stats_on_reject(reason);
                    },
                    None => {},
                }
                true
            },
            Ok(()) => {
                let key = MempoolOrderingKey::for_transaction(&tx, d.timestamp_micros);
                let entry = MempoolEntry::new(d.txid, tx, key, d.tx_bytes.len());
                self.insert_entry(entry);
                false
            },
        }
    }

    /// Loads the transactions kept in the database, oldest first (see
    /// [`load_outcome`]): each is read back from its encoding, checked against
    /// its stored id and validated, and then held without the capacity checks
    /// of a submission. Returns the ids of the records to drop from the
    /// database.
    #[verifier::rlimit(50)]
    pub fn load_from_db(&mut self, stored: Vec<MempoolTxData>) -> (r: Vec<TxId>)
        requires
            old(self).wf(),
            old(self).stats_view().total_bytes + stored_bytes(stored_views(stored@)) <= usize::MAX,
            records_fit(stored_views(stored@)),
        ensures
            final(self).wf(),
            final(self).config_view() == old(self).config_view(),
            final(self).chain_view() == old(self).chain_view(),
            ({
                let sts = sort_by_time(stored_views(stored@));
                let pool0 = old(self).pool();
                let chain = old(self).chain_view();
                let st0 = old(self).stats_view();
                let st1 = final(self).stats_view();
                let rejects = load_rejects(pool0, chain, sts);
                &&& final(self).pool() == load_pool(pool0, chain, sts)
                &&& r@ == load_dropped(pool0, chain, sts)
                &&& st1.enqueues_accepted == sat_add(st0.enqueues_accepted, load_count(pool0, chain, sts))
                &&& st1.enqueues_rejected == sat_add(st0.enqueues_rejected, rejects.len())
                &&& st1.rejects_by_reason@.len() == st0.rejects_by_reason@.len()
                &&& forall|k: int|
                    0 <= k < st0.rejects_by_reason@.len() ==> #[trigger] st1.rejects_by_reason@[k] == sat_add(
                        st0.rejects_by_reason@[k],
                        count_reason(rejects, k),
                    )
                &&& st1.evictions == st0.evictions
            }),
    {
        let ghost pool0 = self.pool();
        let ghost chain = self.chain;
        let ghost st0 = self.stats;
        let ghost orig = stored_views(stored@);
        let sorted = sort_by_timestamp(stored);
        let ghost sts = stored_views(sorted@);
        proof {
            lemma_sort_stored_bytes(orig);
            lemma_sort_keeps_fit(orig);
        }
        let mut dropped: Vec<TxId> = Vec::new();
        let mut i: usize = 0;
        proof {
            reveal(load_pool);
            reveal(load_dropped);
            reveal(load_rejects);
            reveal(load_count);
            assert(sts.take(0) =~= Seq::<StoredView>::empty());
            assert forall|k: int| 0 <= k < st0.rejects_by_reason@.len() implies #[trigger] self.stats.rejects_by_reason@[k]
                == sat_add(st0.rejects_by_reason@[k], count_reason(load_rejects(pool0, chain, sts.take(0)), k)) by {
                assert(load_rejects(pool0, chain, sts.take(0)).filter(|r: OLMempoolRejectReason| reason_index(r) == k)
                    =~= Seq::<OLMempoolRejectReason>::empty());
            }
        }
        while i < sorted.len()
            invariant
                self.wf(),
                self.config == old(self).config,
                self.chain == chain,
                chain == old(self).chain,
                pool0 == old(self).pool(),
                st0 == old(self).stats,
                sts == stored_views(sorted@),
                sts == sort_by_time(orig),
                stored_bytes(sts) == stored_bytes(orig),
                records_fit(sts),
                st0.total_bytes + stored_bytes(orig) <= usize::MAX,
                i <= sorted@.len(),
                self.stats.total_bytes <= st0.total_bytes + stored_bytes(sts.take(i as int)),
                self.pool() == load_pool(pool0, chain, sts.take(i as int)),
                dropped@ == load_dropped(pool0, chain, sts.take(i as int)),
                self.stats.enqueues_accepted == sat_add(st0.enqueues_accepted, load_count(pool0, chain, sts.take(i as int))),
                self.stats.enqueues_rejected == sat_add(
                    st0.enqueues_rejected,
                    load_rejects(pool0, chain, sts.take(i as int)).len(),
                ),
                self.stats.rejects_by_reason@.len() == st0.rejects_by_reason@.len(),
                forall|k: int|
                    0 <= k < st0.rejects_by_reason@.len() ==> #[trigger] self.stats.rejects_by_reason@[k] == sat_add(
                        st0.rejects_by_reason@[k],
                        count_reason(load_rejects(pool0, chain, sts.take(i as int)), k),
                    ),
                self.stats.evictions == st0.evictions,
            decreases sorted.len() - i,
        {
            let ghost pre = sts.take(i as int);
            let ghost rej0 = load_rejects(pool0, chain, pre);
            proof {
                lemma_load_step(pool0, chain, sts, i as int);
                assert(sts[i as int] == sorted@[i as int]@);
                lemma_stored_bytes_prefix(sts, i + 1);
                assert(sts.take(i + 1).drop_last() =~= pre);
            }
            let d = &sorted[i];
            let ghost stb = self.stats;
            let ghost o = load_outcome(self.pool(), chain, d@);
            let drop = self.load_one(d);
            if drop {
                dropped.push(d.txid);
            }
            proof {
                let rej1 = load_rejects(pool0, chain, sts.take(i + 1));
                lemma_sat_add_step(st0.enqueues_accepted, load_count(pool0, chain, pre));
                lemma_sat_add_step(st0.enqueues_rejected, rej0.len());
                if o is Rejected && spec_reject_reason(o->Rejected_0) is Some {
                    let reason = spec_reject_reason(o->Rejected_0)->0;
                    assert(rejected_once(stb, self.stats, reason));
                    assert forall|k: int|
                        0 <= k < st0.rejects_by_reason@.len() implies #[trigger] self.stats.rejects_by_reason@[k]
                            == sat_add(st0.rejects_by_reason@[k], count_reason(rej1, k)) by {
                        assert(stb.rejects_by_reason@[k] == sat_add(
                            st0.rejects_by_reason@[k],
                            count_reason(rej0, k),
                        ));
                        lemma_count_reason_push(rej0, reason, k);
                        lemma_sat_add_step(st0.rejects_by_reason@[k], count_reason(rej0, k));
                    }
                } else {
                    assert(self.stats.rejects_by_reason@ == stb.rejects_by_reason@);
                }
            }
            i += 1;
        }
        proof {
            assert(sts.take(i as int) =~= sts);
        }
        dropped
    }
}

/// Loading one more record: the pool, dropped ids, counted reasons and
/// loaded count after a prefix and its next record.
proof fn lemma_load_step(pool0: Seq<EntryView>, chain: ChainState, sts: Seq<StoredView>, i: int)
    requires
        0 <= i < sts.len(),
    ensures
        ({
            let pre = sts.take(i);
            let nxt = sts.take(i + 1);
            let p = load_pool(pool0, chain, pre);
            let o = load_outcome(p, chain, sts[i]);
            &&& load_pool(pool0, chain, nxt) == pool_after(p, o)
            &&& load_dropped(pool0, chain, nxt) == if o is Malformed || o is Rejected {
                load_dropped(pool0, chain, pre).push(sts[i].txid)
            } else {
                load_dropped(pool0, chain, pre)
            }
            &&& load_rejects(pool0, chain, nxt) == if o is Rejected && spec_reject_reason(o->Rejected_0) is Some {
                load_rejects(pool0, chain, pre).push(spec_reject_reason(o->Rejected_0)->0)
            } else {
                load_rejects(pool0, chain, pre)
            }
            &&& load_count(pool0, chain, nxt) == load_count(pool0, chain, pre) + if o is Loaded {
                1nat
            } else {
                0nat
            }
        }),
{
    reveal(load_pool);
    reveal(load_dropped);
    reveal(load_rejects);
    reveal(load_count);
    assert(sts.take(i + 1).drop_last() =~= sts.take(i));
    assert(sts.take(i + 1).last() == sts[i]);
}

/// One more reason counts for its own index only.
proof fn lemma_count_reason_push(rs: Seq<OLMempoolRejectReason>, r: OLMempoolRejectReason, k: int)
    ensures
        count_reason(rs.push(r), k) == count_reason(rs, k) + if reason_index(r) == k {
            1nat
        } else {
            0nat
        },
{
    rs.lemma_filter_push(r, |x: OLMempoolRejectReason| reason_index(x) == k);
}

/// Adding one more saturates as adding one at a time does.
proof fn lemma_sat_add_step(x: u64, n: nat)
    ensures
        sat_add(x, n + 1) == sat_inc(sat_add(x, n)),
{
}

/// A transaction that the mempool would accept, stored with its id, its
/// encoding and its arrival time, loads back as the entry it was held as.
pub proof fn lemma_reload_stored(
    pool: Seq<EntryView>,
    chain: ChainState,
    tx: OLTransactionView,
    id: TxId,
    ts: u64,
)
    requires
        is_txid_of(id, tx),
        !has_txid(pool, id),
        spec_validate(id, tx, chain, pending_range(pool, tx.target())) is Ok,
        enc_tx(tx).len() <= usize::MAX,
    ensures
        load_outcome(pool, chain, StoredView { txid: id, bytes: enc_tx(tx), ts }) == LoadOutcome::Loaded(
            EntryView {
                txid: id,
                tx,
                key: MempoolOrderingKey::of_transaction(tx, ts),
                size: enc_tx(tx).len() as usize,
            },
        ),
{
    lemma_decode_encode(tx);
}

} // verus!
