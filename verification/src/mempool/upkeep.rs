//! Keeping the mempool in step with the chain: revalidation, reports of
//! invalid transactions, new blocks and chain updates, and reading the pool
//! in priority order.

use vstd::prelude::*;

use crate::chain::transaction::OLTransaction;
use crate::chain::encoding::enc_tx_data;
use crate::chain::txid::{merkle_input_fits, spec_txid};
use crate::ids::TxId;
use crate::mempool::chain_view::ChainState;
use crate::mempool::error::OLMempoolResult;
use crate::mempool::state::{
    after_removal, counters_unchanged, pending_range, EntryView, MempoolServiceState, lemma_take_filter_step,
};
use crate::mempool::types::{MempoolTxInvalidReason, should_remove_tx};
use crate::mempool::validation::{spec_validate, validate_transaction};

verus! {

/// The entry fails validation against `chain`, with the sequence numbers
/// pending in `pool` for its account.
pub open spec fn fails_validation(pool: Seq<EntryView>, chain: ChainState, e: EntryView) -> bool {
    spec_validate(e.txid, e.tx, chain, pending_range(pool, e.tx.target())) is Err
}

/// Ids of the entries of `pool` that fail validation, in priority order.
pub open spec fn invalid_ids(pool: Seq<EntryView>, chain: ChainState) -> Seq<TxId> {
    pool.filter(|e: EntryView| fails_validation(pool, chain, e)).map_values(|e: EntryView| e.txid)
}

/// Ids of the reported transactions that leave the mempool.
pub open spec fn reported_ids(txs: Seq<(TxId, MempoolTxInvalidReason)>) -> Seq<TxId> {
    txs.filter(|p: (TxId, MempoolTxInvalidReason)| p.1 is Invalid).map_values(
        |p: (TxId, MempoolTxInvalidReason)| p.0,
    )
}

/// The pool after a block including `included`: those leave without
/// cascade, then the entries that no longer validate leave with cascade.
pub open spec fn after_block(pool: Seq<EntryView>, chain: ChainState, included: Seq<TxId>) -> Seq<EntryView> {
    let mid = after_removal(pool, included, false);
    after_removal(mid, invalid_ids(mid, chain), true)
}

/// The pool after the blocks `blocks`, oldest first.
pub open spec fn after_blocks(pool: Seq<EntryView>, chain: ChainState, blocks: Seq<Seq<TxId>>) -> Seq<EntryView>
    decreases blocks.len(),
{
    if blocks.len() == 0 {
        pool
    } else {
        after_block(after_blocks(pool, chain, blocks.drop_last()), chain, blocks.last())
    }
}

/// The ids that the transactions of a block have in the mempool, in block
/// order. The id of a transaction does not depend on its accumulator
/// proofs, so a transaction keeps its id when a block carries it with them.
pub fn block_txids(txs: &[OLTransaction]) -> (r: Vec<TxId>)
    requires
        forall|i: int| 0 <= i < txs@.len() ==> merkle_input_fits(#[trigger] enc_tx_data(txs@[i]@.data).len()),
    ensures
        r@.len() == txs@.len(),
        forall|i: int| 0 <= i < txs@.len() ==> (#[trigger] r@[i]).0@ == spec_txid(txs@[i]@.data),
{
    let mut out: Vec<TxId> = Vec::new();
    let mut i: usize = 0;
    while i < txs.len()
        invariant
            i <= txs@.len(),
            forall|k: int| 0 <= k < txs@.len() ==> merkle_input_fits(#[trigger] enc_tx_data(txs@[k]@.data).len()),
            out@.len() == i,
            forall|k: int| 0 <= k < i ==> (#[trigger] out@[k]).0@ == spec_txid(txs@[k]@.data),
        decreases txs.len() - i,
    {
        out.push(txs[i].compute_txid());
        i += 1;
    }
    out
}

/// The ids of the reported transactions that leave the mempool, in report
/// order (see [`reported_ids`]).
pub fn reported_txids(txs: &[(TxId, MempoolTxInvalidReason)]) -> (r: Vec<TxId>)
    ensures
        r@ == reported_ids(txs@),
{
        let ghost keep = |p: (TxId, MempoolTxInvalidReason)| p.1 is Invalid;
    let mut ids: Vec<TxId> = Vec::new();
    let mut i: usize = 0;
    while i < txs.len()
        invariant
            keep == (|p: (TxId, MempoolTxInvalidReason)| p.1 is Invalid),
            i <= txs@.len(),
            ids@ == txs@.take(i as int).filter(keep).map_values(|p: (TxId, MempoolTxInvalidReason)| p.0),
        decreases txs.len() - i,
    {
        proof {
            lemma_take_filter_step(txs@, keep, i as int);
        }
        let (id, reason) = txs[i];
        if should_remove_tx(reason) {
            ids.push(id);
        }
        proof {
            assert(ids@ =~= txs@.take(i + 1).filter(keep).map_values(|p: (TxId, MempoolTxInvalidReason)| p.0));
        }
        i += 1;
    }
    assert(txs@.take(txs@.len() as int) =~= txs@);
    ids
}

impl MempoolServiceState {
    /// Ids of the transactions that no longer validate against the chain
    /// state, in priority order.
    pub fn revalidate_all_transactions(&self) -> (r: Vec<TxId>)
        requires
            self.wf(),
        ensures
            r@ == invalid_ids(self.pool(), self.chain_view()),
    {
        let ghost pool = self.pool();
        let ghost bad = |e: EntryView| fails_validation(pool, self.chain_view(), e);
        let mut out: Vec<TxId> = Vec::new();
        let mut i: usize = 0;
        while i < self.len()
            invariant
                pool == self.pool(),
                bad == (|e: EntryView| fails_validation(pool, self.chain_view(), e)),
                i <= pool.len(),
                out@ == pool.take(i as int).filter(bad).map_values(|e: EntryView| e.txid),
            decreases pool.len() - i,
        {
            let e = self.entry_at(i);
            let target = e.tx.payload().target_account();
            let range = self.pending_seq_no_range(&target);
            let verdict = validate_transaction(e.txid, &e.tx, self.chain_state(), range);
            proof {
                lemma_take_filter_step(pool, bad, i as int);
            }
            if verdict.is_err() {
                out.push(e.txid);
            }
            proof {
                assert(out@ =~= pool.take(i + 1).filter(bad).map_values(|e: EntryView| e.txid));
            }
            i += 1;
        }
        assert(pool.take(pool.len() as int) =~= pool);
        out
    }

    /// Removes, with their later updates, the reported transactions whose
    /// reason is [`MempoolTxInvalidReason::Invalid`].
    pub fn handle_report_invalid_transactions(&mut self, txs: &[(TxId, MempoolTxInvalidReason)])
        requires
            old(self).wf(),
        ensures
            final(self).wf(),
            final(self).pool() == after_removal(old(self).pool(), reported_ids(txs@), true),
            final(self).config_view() == old(self).config_view(),
            final(self).chain_view() == old(self).chain_view(),
            counters_unchanged(old(self).stats_view(), final(self).stats_view()),
    {
        let ids = reported_txids(txs);
        self.remove_transactions(ids.as_slice(), true);
    }

    /// Up to `limit` transactions with their ids, in priority order.
    pub fn handle_get_transactions(&self, limit: usize) -> (r: OLMempoolResult<Vec<(TxId, OLTransaction)>>)
        ensures
            r is Ok,
            r->Ok_0@.len() == (if limit < self.pool().len() { limit as int } else { self.pool().len() as int }),
            forall|i: int|
                0 <= i < r->Ok_0@.len() ==> (#[trigger] r->Ok_0@[i]).0 == self.pool()[i].txid && r->Ok_0@[i].1@
                    == self.pool()[i].tx,
    {
        let n = if limit < self.len() { limit } else { self.len() };
        let mut out: Vec<(TxId, OLTransaction)> = Vec::new();
        let mut i: usize = 0;
        while i < n
            invariant
                n <= self.pool().len(),
                n == (if limit < self.pool().len() { limit as int } else { self.pool().len() as int }),
                i <= n,
                out@.len() == i,
                forall|k: int|
                    0 <= k < i ==> (#[trigger] out@[k]).0 == self.pool()[k].txid && out@[k].1@ == self.pool()[k].tx,
            decreases n - i,
        {
            let e = self.entry_at(i);
            out.push((e.txid, e.tx.duplicate()));
            i += 1;
        }
        Ok(out)
    }

    /// Takes a new block into account: its transactions `included` leave
    /// the mempool (without cascade), then the transactions that no longer
    /// validate leave with their later updates.
    pub fn handle_new_block(&mut self, included: &[TxId])
        requires
            old(self).wf(),
        ensures
            final(self).wf(),
            final(self).pool() == after_block(old(self).pool(), old(self).chain_view(), included@),
            final(self).config_view() == old(self).config_view(),
            final(self).chain_view() == old(self).chain_view(),
            counters_unchanged(old(self).stats_view(), final(self).stats_view()),
    {
        self.remove_transactions(included, false);
        let invalid = self.revalidate_all_transactions();
        self.remove_transactions(invalid.as_slice(), true);
    }

    /// Moves to the chain state of a new tip, then takes into account the
    /// blocks since the previous tip, oldest first, each given by the ids of
    /// its transactions.
    pub fn handle_chain_update(&mut self, chain: ChainState, blocks: &[Vec<TxId>])
        requires
            old(self).wf(),
        ensures
            final(self).wf(),
            final(self).chain_view() == chain,
            final(self).config_view() == old(self).config_view(),
            final(self).pool() == after_blocks(
                old(self).pool(),
                chain,
                blocks@.map_values(|b: Vec<TxId>| b@),
            ),
            counters_unchanged(old(self).stats_view(), final(self).stats_view()),
    {
        self.set_chain_state(chain);
        let ghost pool0 = self.pool();
        let ghost all = blocks@.map_values(|b: Vec<TxId>| b@);
        let mut i: usize = 0;
        while i < blocks.len()
            invariant
                self.wf(),
                self.chain_view() == chain,
                self.config_view() == old(self).config_view(),
                pool0 == old(self).pool(),
                all == blocks@.map_values(|b: Vec<TxId>| b@),
                i <= blocks@.len(),
                self.pool() == after_blocks(pool0, chain, all.take(i as int)),
                counters_unchanged(old(self).stats_view(), self.stats_view()),
            decreases blocks.len() - i,
        {
            proof {
                assert(all.take(i + 1).drop_last() =~= all.take(i as int));
            }
            self.handle_new_block(blocks[i].as_slice());
            i += 1;
        }
        assert(all.take(blocks@.len() as int) =~= all);
    }
}

} // verus!
