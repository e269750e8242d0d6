//! Canonical byte encoding of transactions.
//!
//! Integers are little-endian of fixed width, byte strings and lists carry a
//! 64-bit length prefix, options a one-byte tag (0 absent, 1 present), and a
//! payload a one-byte tag for its kind followed by its fields.

use vstd::prelude::*;

use crate::chain::transaction::{
    AccumulatorClaim, MessageEntry, MessageEntryView, OLTransaction, OLTransactionData,
    OLTransactionDataView, OLTransactionView, SauTxOperationData, SauTxOperationDataView,
    SauTxProofState, SauTxUpdateDataView, SentMessageView, TransactionPayload,
    TransactionPayloadView, TxConstraints, TxEffects, TxProofsView, bytes_list_view, messages_view,
    opt_bytes_list_view, sent_view,
};
use crate::ids::{AccountId, Buf32};

verus! {

/// The `n` low bytes of `x`, least significant first.
pub open spec fn le_bytes(x: nat, n: nat) -> Seq<u8>
    decreases n,
{
    if n == 0 {
        Seq::empty()
    } else {
        seq![(x % 256) as u8] + le_bytes(x / 256, (n - 1) as nat)
    }
}

/// The encoding of a number in `n` bytes has `n` bytes.
pub broadcast proof fn lemma_le_bytes_len(x: nat, n: nat)
    ensures
        #[trigger] le_bytes(x, n).len() == n,
    decreases n,
{
    if n > 0 {
        lemma_le_bytes_len(x / 256, (n - 1) as nat);
    }
}

pub open spec fn enc_u64(x: u64) -> Seq<u8> {
    le_bytes(x as nat, 8)
}

pub open spec fn enc_u32(x: u32) -> Seq<u8> {
    le_bytes(x as nat, 4)
}

pub open spec fn enc_bytes(b: Seq<u8>) -> Seq<u8> {
    le_bytes(b.len(), 8) + b
}

pub open spec fn enc_opt_u64(o: Option<u64>) -> Seq<u8> {
    match o {
        None => seq![0u8],
        Some(x) => seq![1u8] + enc_u64(x),
    }
}

pub open spec fn enc_account(a: AccountId) -> Seq<u8> {
    a.0@
}

pub open spec fn enc_buf32(b: Buf32) -> Seq<u8> {
    b.0@
}

/// The encodings of the items of `s`, one after the other.
pub open spec fn concat_map<T>(s: Seq<T>, f: spec_fn(T) -> Seq<u8>) -> Seq<u8>
    decreases s.len(),
{
    if s.len() == 0 {
        Seq::empty()
    } else {
        concat_map(s.drop_last(), f) + f(s.last())
    }
}

/// A list: its length, then its items.
pub open spec fn enc_list<T>(s: Seq<T>, f: spec_fn(T) -> Seq<u8>) -> Seq<u8> {
    le_bytes(s.len(), 8) + concat_map(s, f)
}

pub open spec fn enc_message_entry(m: MessageEntryView) -> Seq<u8> {
    enc_account(m.source) + enc_u32(m.incl_epoch) + enc_u64(m.value) + enc_bytes(m.data)
}

pub open spec fn enc_claim(c: AccumulatorClaim) -> Seq<u8> {
    enc_u64(c.idx) + enc_buf32(c.entry_hash)
}

pub open spec fn enc_opt_claims(o: Option<Seq<AccumulatorClaim>>) -> Seq<u8> {
    match o {
        None => seq![0u8],
        Some(c) => seq![1u8] + enc_list(c, |x: AccumulatorClaim| enc_claim(x)),
    }
}

pub open spec fn enc_proof_state(p: SauTxProofState) -> Seq<u8> {
    enc_u64(p.new_next_msg_idx) + enc_buf32(p.inner_state_root)
}

pub open spec fn enc_update_data(u: SauTxUpdateDataView) -> Seq<u8> {
    enc_u64(u.seq_no) + enc_proof_state(u.proof_state) + enc_bytes(u.extra_data)
}

pub open spec fn enc_operation(o: SauTxOperationDataView) -> Seq<u8> {
    enc_update_data(o.update_data) + enc_list(
        o.messages,
        |m: MessageEntryView| enc_message_entry(m),
    ) + enc_opt_claims(o.ledger_refs)
}

pub open spec fn enc_payload(p: TransactionPayloadView) -> Seq<u8> {
    match p {
        TransactionPayloadView::GenericAccountMessage(g) => seq![0u8] + enc_account(g.target),
        TransactionPayloadView::SnarkAccountUpdate(s) => seq![1u8] + enc_account(s.target)
            + enc_operation(s.operation_data),
    }
}

pub open spec fn enc_constraints(c: TxConstraints) -> Seq<u8> {
    enc_opt_u64(c.min_slot) + enc_opt_u64(c.max_slot)
}

pub open spec fn enc_sent(m: SentMessageView) -> Seq<u8> {
    enc_account(m.dest) + enc_u64(m.value) + enc_bytes(m.data)
}

pub open spec fn enc_effects(e: Seq<SentMessageView>) -> Seq<u8> {
    enc_list(e, |m: SentMessageView| enc_sent(m))
}

/// Canonical encoding of transaction data.
pub open spec fn enc_tx_data(d: OLTransactionDataView) -> Seq<u8> {
    enc_payload(d.payload) + enc_constraints(d.constraints) + enc_effects(d.effects)
}

pub open spec fn enc_opt_bytes_list(o: Option<Seq<Seq<u8>>>) -> Seq<u8> {
    match o {
        None => seq![0u8],
        Some(l) => seq![1u8] + enc_list(l, |b: Seq<u8>| enc_bytes(b)),
    }
}

pub open spec fn enc_proofs(p: TxProofsView) -> Seq<u8> {
    enc_opt_bytes_list(p.predicate_satisfiers) + enc_opt_bytes_list(p.accumulator_proofs)
}

/// Canonical encoding of a transaction: its data, then its proofs.
pub open spec fn enc_tx(t: OLTransactionView) -> Seq<u8> {
    enc_tx_data(t.data) + enc_proofs(t.proofs)
}

/// Appends the `n` low bytes of `x`, least significant first.
fn push_le(out: &mut Vec<u8>, x: u64, n: usize)
    requires
        n <= 8,
    ensures
        final(out)@ == old(out)@ + le_bytes(x as nat, n as nat),
{
    let ghost start = old(out)@;
    let mut v = x;
    let mut i: usize = 0;
    while i < n
        invariant
            i <= n,
            start + le_bytes(x as nat, n as nat) == out@ + le_bytes(v as nat, (n - i) as nat),
        decreases n - i,
    {
        let ghost before = out@;
        out.push((v % 256) as u8);
        proof {
            let k = (n - i) as nat;
            assert(le_bytes(v as nat, k) == seq![(v as nat % 256) as u8] + le_bytes(
                v as nat / 256,
                (k - 1) as nat,
            ));
            assert(out@ + le_bytes((v / 256) as nat, (k - 1) as nat) =~= before + le_bytes(
                v as nat,
                k,
            ));
        }
        v = v / 256;
        i += 1;
    }
    assert(out@ + le_bytes(v as nat, 0) =~= out@);
}

pub fn push_u64(out: &mut Vec<u8>, x: u64)
    ensures
        final(out)@ == old(out)@ + enc_u64(x),
{
    push_le(out, x, 8);
}

pub fn push_u32(out: &mut Vec<u8>, x: u32)
    ensures
        final(out)@ == old(out)@ + enc_u32(x),
{
    push_le(out, x as u64, 4);
}

/// Appends every byte of `b`.
fn push_all(out: &mut Vec<u8>, b: &[u8])
    ensures
        final(out)@ == old(out)@ + b@,
{
    let ghost start = old(out)@;
    let mut i: usize = 0;
    while i < b.len()
        invariant
            i <= b.len(),
            out@ == start + b@.take(i as int),
        decreases b.len() - i,
    {
        out.push(b[i]);
        proof {
            assert(b@.take(i + 1) =~= b@.take(i as int).push(b@[i as int]));
        }
        i += 1;
    }
    assert(b@.take(b.len() as int) =~= b@);
}

pub fn push_bytes(out: &mut Vec<u8>, b: &[u8])
    ensures
        final(out)@ == old(out)@ + enc_bytes(b@),
{
    push_le(out, b.len() as u64, 8);
    push_all(out, b);
    assert(final(out)@ =~= old(out)@ + enc_bytes(b@));
}

pub fn push_opt_u64(out: &mut Vec<u8>, o: Option<u64>)
    ensures
        final(out)@ == old(out)@ + enc_opt_u64(o),
{
    match o {
        None => {
            out.push(0u8);
            assert(final(out)@ =~= old(out)@ + enc_opt_u64(o));
        },
        Some(x) => {
            out.push(1u8);
            push_u64(out, x);
            assert(final(out)@ =~= old(out)@ + enc_opt_u64(o));
        },
    }
}

pub fn push_array32(out: &mut Vec<u8>, a: &[u8; 32])
    ensures
        final(out)@ == old(out)@ + a@,
{
    push_all(out, a.as_slice());
}

/// One more item extends the concatenation by that item's encoding.
pub proof fn lemma_concat_map_step<T>(s: Seq<T>, f: spec_fn(T) -> Seq<u8>, i: int)
    requires
        0 <= i < s.len(),
    ensures
        concat_map(s.take(i + 1), f) == concat_map(s.take(i), f) + f(s[i]),
{
    let t = s.take(i + 1);
    assert(t.drop_last() =~= s.take(i));
    assert(t.last() == s[i]);
}

fn push_message_entry(out: &mut Vec<u8>, m: &MessageEntry)
    ensures
        final(out)@ == old(out)@ + enc_message_entry(m@),
{
    push_array32(out, &m.source.0);
    push_u32(out, m.incl_epoch);
    push_u64(out, m.value);
    push_bytes(out, m.data.as_slice());
    assert(final(out)@ =~= old(out)@ + enc_message_entry(m@));
}

fn push_messages(out: &mut Vec<u8>, ms: &Vec<MessageEntry>)
    ensures
        final(out)@ == old(out)@ + enc_list(
            messages_view(ms@),
            |m: MessageEntryView| enc_message_entry(m),
        ),
{
    let ghost f = |m: MessageEntryView| enc_message_entry(m);
    let ghost s = messages_view(ms@);
    push_le(out, ms.len() as u64, 8);
    let ghost start = out@;
    let mut i: usize = 0;
    while i < ms.len()
        invariant
            f == (|m: MessageEntryView| enc_message_entry(m)),
            s == messages_view(ms@),
            i <= ms.len(),
            out@ == start + concat_map(s.take(i as int), f),
        decreases ms.len() - i,
    {
        push_message_entry(out, &ms[i]);
        proof {
            lemma_concat_map_step(s, f, i as int);
            assert(out@ =~= start + concat_map(s.take(i + 1), f));
        }
        i += 1;
    }
    assert(s.take(ms.len() as int) =~= s);
    assert(final(out)@ =~= old(out)@ + enc_list(s, f));
}

fn push_claims(out: &mut Vec<u8>, cs: &Vec<AccumulatorClaim>)
    ensures
        final(out)@ == old(out)@ + enc_list(cs@, |x: AccumulatorClaim| enc_claim(x)),
{
    let ghost f = |x: AccumulatorClaim| enc_claim(x);
    push_le(out, cs.len() as u64, 8);
    let ghost start = out@;
    let mut i: usize = 0;
    while i < cs.len()
        invariant
            f == (|x: AccumulatorClaim| enc_claim(x)),
            i <= cs.len(),
            out@ == start + concat_map(cs@.take(i as int), f),
        decreases cs.len() - i,
    {
        let c = cs[i];
        push_u64(out, c.idx);
        push_array32(out, &c.entry_hash.0);
        proof {
            lemma_concat_map_step(cs@, f, i as int);
            assert(out@ =~= start + concat_map(cs@.take(i + 1), f));
        }
        i += 1;
    }
    assert(cs@.take(cs.len() as int) =~= cs@);
    assert(final(out)@ =~= old(out)@ + enc_list(cs@, f));
}

fn push_bytes_list(out: &mut Vec<u8>, l: &Vec<Vec<u8>>)
    ensures
        final(out)@ == old(out)@ + enc_list(bytes_list_view(l@), |b: Seq<u8>| enc_bytes(b)),
{
    let ghost f = |b: Seq<u8>| enc_bytes(b);
    let ghost s = bytes_list_view(l@);
    push_le(out, l.len() as u64, 8);
    let ghost start = out@;
    let mut i: usize = 0;
    while i < l.len()
        invariant
            f == (|b: Seq<u8>| enc_bytes(b)),
            s == bytes_list_view(l@),
            i <= l.len(),
            out@ == start + concat_map(s.take(i as int), f),
        decreases l.len() - i,
    {
        push_bytes(out, l[i].as_slice());
        proof {
            lemma_concat_map_step(s, f, i as int);
            assert(out@ =~= start + concat_map(s.take(i + 1), f));
        }
        i += 1;
    }
    assert(s.take(l.len() as int) =~= s);
    assert(final(out)@ =~= old(out)@ + enc_list(s, f));
}

fn push_opt_bytes_list(out: &mut Vec<u8>, o: &Option<Vec<Vec<u8>>>)
    ensures
        final(out)@ == old(out)@ + enc_opt_bytes_list(opt_bytes_list_view(*o)),
{
    match o {
        None => {
            out.push(0u8);
            assert(final(out)@ =~= old(out)@ + enc_opt_bytes_list(opt_bytes_list_view(*o)));
        },
        Some(l) => {
            out.push(1u8);
            push_bytes_list(out, l);
            assert(final(out)@ =~= old(out)@ + enc_opt_bytes_list(opt_bytes_list_view(*o)));
        },
    }
}

fn push_operation(out: &mut Vec<u8>, o: &SauTxOperationData)
    ensures
        final(out)@ == old(out)@ + enc_operation(o@),
{
    let u = &o.update_data;
    push_u64(out, u.seq_no);
    push_u64(out, u.proof_state.new_next_msg_idx);
    push_array32(out, &u.proof_state.inner_state_root.0);
    push_bytes(out, u.extra_data.as_slice());
    push_messages(out, &o.messages);
    match &o.ledger_refs.asm_history_proofs {
        None => {
            out.push(0u8);
        },
        Some(cs) => {
            out.push(1u8);
            push_claims(out, cs);
        },
    }
    assert(final(out)@ =~= old(out)@ + enc_operation(o@));
}

fn push_payload(out: &mut Vec<u8>, p: &TransactionPayload)
    ensures
        final(out)@ == old(out)@ + enc_payload(p@),
{
    match p {
        TransactionPayload::GenericAccountMessage(g) => {
            out.push(0u8);
            push_array32(out, &g.target.0);
        },
        TransactionPayload::SnarkAccountUpdate(s) => {
            out.push(1u8);
            push_array32(out, &s.target.0);
            push_operation(out, &s.operation_data);
        },
    }
    assert(final(out)@ =~= old(out)@ + enc_payload(p@));
}

fn push_effects(out: &mut Vec<u8>, e: &TxEffects)
    ensures
        final(out)@ == old(out)@ + enc_effects(e@),
{
    let ghost f = |m: SentMessageView| enc_sent(m);
    let ghost s = e@;
    push_le(out, e.messages.len() as u64, 8);
    let ghost start = out@;
    let mut i: usize = 0;
    while i < e.messages.len()
        invariant
            f == (|m: SentMessageView| enc_sent(m)),
            s == e@,
            s == sent_view(e.messages@),
            i <= e.messages.len(),
            out@ == start + concat_map(s.take(i as int), f),
        decreases e.messages.len() - i,
    {
        let m = &e.messages[i];
        push_array32(out, &m.dest.0);
        push_u64(out, m.value);
        push_bytes(out, m.data.as_slice());
        proof {
            lemma_concat_map_step(s, f, i as int);
            assert(out@ =~= start + concat_map(s.take(i + 1), f));
        }
        i += 1;
    }
    assert(s.take(e.messages.len() as int) =~= s);
    assert(final(out)@ =~= old(out)@ + enc_effects(e@));
}

/// Appends the canonical encoding of transaction data.
pub fn push_tx_data(out: &mut Vec<u8>, d: &OLTransactionData)
    ensures
        final(out)@ == old(out)@ + enc_tx_data(d@),
{
    push_payload(out, &d.payload);
    push_opt_u64(out, d.constraints.min_slot);
    push_opt_u64(out, d.constraints.max_slot);
    push_effects(out, &d.effects);
    assert(final(out)@ =~= old(out)@ + enc_tx_data(d@));
}

/// The canonical encoding of transaction data.
pub fn encode_tx_data(d: &OLTransactionData) -> (r: Vec<u8>)
    ensures
        r@ == enc_tx_data(d@),
{
    let mut out: Vec<u8> = Vec::new();
    push_tx_data(&mut out, d);
    assert(out@ =~= enc_tx_data(d@));
    out
}

/// The canonical encoding of a transaction.
pub fn encode_tx(t: &OLTransaction) -> (r: Vec<u8>)
    ensures
        r@ == enc_tx(t@),
{
    let mut out: Vec<u8> = Vec::new();
    push_tx_data(&mut out, &t.data);
    push_opt_bytes_list(&mut out, &t.proofs.predicate_satisfiers);
    push_opt_bytes_list(&mut out, &t.proofs.accumulator_proofs);
    assert(out@ =~= enc_tx(t@));
    out
}

} // verus!
