# strata_ol

Verified core of the OL node services, written in Verus.

- `src/chain`: OL transactions, their canonical byte encoding and its reader
  (proved to read back exactly what was written), and transaction ids.
- `src/mempool`: the transaction mempool — configuration, statistics,
  priority ordering, validation against the chain state, the pool itself
  (submission, replacement, removal with cascade, revalidation, new blocks,
  chain updates, reloading from storage).
- `src/prover`: proof-task states, records, the task store and the retry
  decisions of the prover.
- `src/sequencer`: sequencer duties, their expiry and ids, the bookkeeping
  that dispatches each duty once, payload signing scans and the duties'
  wire form.
- `src/checkpoint`: proof normalisation and proof-wait decisions of the
  checkpoint worker.
- `src/da`: the per-epoch accumulator of data-availability writes — new
  accounts, account deltas and inbox messages, their checks, the ledger
  diff built at the end of the epoch and its size estimate.
- `app/`: the runtime around the library (sled persistence, service loops,
  serialisable copies of status types, floating-point retry backoff,
  thread signalling).
