//! OL transactions.

use vstd::prelude::*;

use crate::ids::{AccountId, Buf32};

verus! {

/// A copy of a byte vector.
pub fn copy_bytes(v: &Vec<u8>) -> (r: Vec<u8>)
    ensures
        r@ == v@,
{
    let r = v.clone();
    assert(r@ =~= v@);
    r
}

/// The values of a list of byte vectors.
pub open spec fn bytes_list_view(v: Seq<Vec<u8>>) -> Seq<Seq<u8>> {
    v.map_values(|b: Vec<u8>| b@)
}

/// A copy of a list of byte vectors.
pub fn copy_bytes_list(v: &Vec<Vec<u8>>) -> (r: Vec<Vec<u8>>)
    ensures
        bytes_list_view(r@) == bytes_list_view(v@),
{
    let mut out: Vec<Vec<u8>> = Vec::new();
    let mut i: usize = 0;
    while i < v.len()
        invariant
            i <= v.len(),
            out@.len() == i,
            forall|k: int| 0 <= k < i ==> #[trigger] out@[k]@ == v@[k]@,
        decreases v.len() - i,
    {
        out.push(copy_bytes(&v[i]));
        i += 1;
    }
    assert(bytes_list_view(out@) =~= bytes_list_view(v@));
    out
}

/// The value of an optional list of byte vectors.
pub open spec fn opt_bytes_list_view(v: Option<Vec<Vec<u8>>>) -> Option<Seq<Seq<u8>>> {
    match v {
        Some(l) => Some(bytes_list_view(l@)),
        None => None,
    }
}

/// A copy of an optional list of byte vectors.
pub fn copy_opt_bytes_list(v: &Option<Vec<Vec<u8>>>) -> (r: Option<Vec<Vec<u8>>>)
    ensures
        opt_bytes_list_view(r) == opt_bytes_list_view(*v),
{
    match v {
        Some(l) => Some(copy_bytes_list(l)),
        None => None,
    }
}

/// Type ID to indicate transaction types.
#[derive(Copy, Clone, Debug, Hash, Eq, PartialEq, Ord, PartialOrd)]
pub enum TxTypeId {
    /// Transactions that are messages being sent to other accounts.
    GenericAccountMessage,
    /// Transactions that are snark account updates.
    SnarkAccountUpdate,
}

impl TxTypeId {
    /// The numeric code of the type.
    pub fn code(&self) -> (r: u16)
        ensures
            r == (if *self is GenericAccountMessage { 0u16 } else { 1u16 }),
    {
        match self {
            TxTypeId::GenericAccountMessage => 0,
            TxTypeId::SnarkAccountUpdate => 1,
        }
    }

    /// The type with numeric code `code`, if there is one.
    pub fn from_code(code: u16) -> (r: Option<TxTypeId>)
        ensures
            code == 0 ==> r == Some(TxTypeId::GenericAccountMessage),
            code == 1 ==> r == Some(TxTypeId::SnarkAccountUpdate),
            code > 1 ==> r is None,
    {
        if code == 0 {
            Some(TxTypeId::GenericAccountMessage)
        } else if code == 1 {
            Some(TxTypeId::SnarkAccountUpdate)
        } else {
            None
        }
    }

    /// The type's name as shown to users.
    pub fn name(&self) -> (r: &'static str)
        ensures
            *self is GenericAccountMessage ==> r@ == "generic-account-message"@,
            *self is SnarkAccountUpdate ==> r@ == "snark-account-update"@,
    {
        match self {
            TxTypeId::GenericAccountMessage => {
                let s = "generic-account-message";
                proof {
                    reveal_strlit("generic-account-message");
                }
                s
            },
            TxTypeId::SnarkAccountUpdate => {
                let s = "snark-account-update";
                proof {
                    reveal_strlit("snark-account-update");
                }
                s
            },
        }
    }
}

/// Slot bounds within which a transaction may be included.
#[derive(Clone, Copy, Debug, PartialEq, Eq)]
pub struct TxConstraints {
    pub min_slot: Option<u64>,
    pub max_slot: Option<u64>,
}

impl TxConstraints {
    pub fn new(min_slot: Option<u64>, max_slot: Option<u64>) -> (r: TxConstraints)
        ensures
            r.min_slot == min_slot,
            r.max_slot == max_slot,
    {
        TxConstraints { min_slot, max_slot }
    }

    /// No slot bounds.
    pub fn unbounded() -> (r: TxConstraints)
        ensures
            r.min_slot is None,
            r.max_slot is None,
    {
        TxConstraints { min_slot: None, max_slot: None }
    }

    pub fn min_slot(&self) -> (r: Option<u64>)
        ensures
            r == self.min_slot,
    {
        self.min_slot
    }

    pub fn set_min_slot(&mut self, min_slot: Option<u64>)
        ensures
            final(self).min_slot == min_slot,
            final(self).max_slot == old(self).max_slot,
    {
        self.min_slot = min_slot;
    }

    pub fn max_slot(&self) -> (r: Option<u64>)
        ensures
            r == self.max_slot,
    {
        self.max_slot
    }

    pub fn set_max_slot(&mut self, max_slot: Option<u64>)
        ensures
            final(self).max_slot == max_slot,
            final(self).min_slot == old(self).min_slot,
    {
        self.max_slot = max_slot;
    }
}

/// Payload of a generic account message transaction.
#[derive(Clone, Copy, Debug, PartialEq, Eq)]
pub struct GamTxPayload {
    pub target: AccountId,
}

impl GamTxPayload {
    pub fn new(target: AccountId) -> (r: Result<GamTxPayload, &'static str>)
        ensures
            r matches Ok(p) && p.target == target,
    {
        Ok(GamTxPayload { target })
    }

    pub fn target(&self) -> (r: &AccountId)
        ensures
            *r == self.target,
    {
        &self.target
    }
}

/// An inbox message that a snark account update consumes.
#[derive(Clone, Debug, PartialEq, Eq)]
pub struct MessageEntry {
    pub source: AccountId,
    pub incl_epoch: u32,
    pub value: u64,
    pub data: Vec<u8>,
}

pub struct MessageEntryView {
    pub source: AccountId,
    pub incl_epoch: u32,
    pub value: u64,
    pub data: Seq<u8>,
}

impl View for MessageEntry {
    type V = MessageEntryView;

    open spec fn view(&self) -> MessageEntryView {
        MessageEntryView {
            source: self.source,
            incl_epoch: self.incl_epoch,
            value: self.value,
            data: self.data@,
        }
    }
}

impl MessageEntry {
    pub fn duplicate(&self) -> (r: MessageEntry)
        ensures
            r@ == self@,
    {
        MessageEntry {
            source: self.source,
            incl_epoch: self.incl_epoch,
            value: self.value,
            data: copy_bytes(&self.data),
        }
    }
}

/// The values of a list of messages.
pub open spec fn messages_view(v: Seq<MessageEntry>) -> Seq<MessageEntryView> {
    v.map_values(|m: MessageEntry| m@)
}

/// A copy of a list of messages.
pub fn copy_messages(v: &Vec<MessageEntry>) -> (r: Vec<MessageEntry>)
    ensures
        messages_view(r@) == messages_view(v@),
{
    let mut out: Vec<MessageEntry> = Vec::new();
    let mut i: usize = 0;
    while i < v.len()
        invariant
            i <= v.len(),
            out@.len() == i,
            forall|k: int| 0 <= k < i ==> #[trigger] out@[k]@ == v@[k]@,
        decreases v.len() - i,
    {
        out.push(v[i].duplicate());
        i += 1;
    }
    assert(messages_view(out@) =~= messages_view(v@));
    out
}

/// A claim on an entry of the ASM history accumulator.
#[derive(Clone, Copy, Debug, PartialEq, Eq)]
pub struct AccumulatorClaim {
    pub idx: u64,
    pub entry_hash: Buf32,
}

/// A copy of a list of claims.
pub fn copy_claims(v: &Vec<AccumulatorClaim>) -> (r: Vec<AccumulatorClaim>)
    ensures
        r@ == v@,
{
    let mut out: Vec<AccumulatorClaim> = Vec::new();
    let mut i: usize = 0;
    while i < v.len()
        invariant
            i <= v.len(),
            out@.len() == i,
            forall|k: int| 0 <= k < i ==> #[trigger] out@[k] == v@[k],
        decreases v.len() - i,
    {
        out.push(v[i]);
        i += 1;
    }
    assert(out@ =~= v@);
    out
}

/// Ledger references of a snark account update.
#[derive(Clone, Debug, PartialEq, Eq)]
pub struct SauTxLedgerRefs {
    pub asm_history_proofs: Option<Vec<AccumulatorClaim>>,
}

pub open spec fn opt_claims_view(v: Option<Vec<AccumulatorClaim>>) -> Option<Seq<AccumulatorClaim>> {
    match v {
        Some(c) => Some(c@),
        None => None,
    }
}

impl View for SauTxLedgerRefs {
    type V = Option<Seq<AccumulatorClaim>>;

    open spec fn view(&self) -> Option<Seq<AccumulatorClaim>> {
        opt_claims_view(self.asm_history_proofs)
    }
}

impl SauTxLedgerRefs {
    pub fn new_empty() -> (r: SauTxLedgerRefs)
        ensures
            r@ is None,
    {
        SauTxLedgerRefs { asm_history_proofs: None }
    }

    pub fn new_with_claims(claims: Vec<AccumulatorClaim>) -> (r: SauTxLedgerRefs)
        ensures
            r@ == Some(claims@),
    {
        SauTxLedgerRefs { asm_history_proofs: Some(claims) }
    }

    pub fn set_asm_history_claims(&mut self, claims: Vec<AccumulatorClaim>)
        ensures
            final(self)@ == Some(claims@),
    {
        self.asm_history_proofs = Some(claims);
    }

    pub fn asm_history_proofs(&self) -> (r: Option<&Vec<AccumulatorClaim>>)
        ensures
            self@ is None ==> r is None,
            self@ matches Some(c) ==> (r matches Some(v) && v@ == c),
    {
        match &self.asm_history_proofs {
            Some(c) => Some(c),
            None => None,
        }
    }

    pub fn duplicate(&self) -> (r: SauTxLedgerRefs)
        ensures
            r@ == self@,
    {
        match &self.asm_history_proofs {
            Some(c) => SauTxLedgerRefs { asm_history_proofs: Some(copy_claims(c)) },
            None => SauTxLedgerRefs { asm_history_proofs: None },
        }
    }
}

/// The proof state a snark account update moves to.
#[derive(Clone, Copy, Debug, PartialEq, Eq)]
pub struct SauTxProofState {
    pub new_next_msg_idx: u64,
    pub inner_state_root: Buf32,
}

impl SauTxProofState {
    pub fn new(new_next_msg_idx: u64, inner_state_root: Buf32) -> (r: SauTxProofState)
        ensures
            r.new_next_msg_idx == new_next_msg_idx,
            r.inner_state_root == inner_state_root,
    {
        SauTxProofState { new_next_msg_idx, inner_state_root }
    }

    pub fn new_next_msg_idx(&self) -> (r: u64)
        ensures
            r == self.new_next_msg_idx,
    {
        self.new_next_msg_idx
    }

    pub fn inner_state_root(&self) -> (r: Buf32)
        ensures
            r == self.inner_state_root,
    {
        self.inner_state_root
    }
}

/// The update data of a snark account update: its sequence number, the new
/// proof state and extra data.
#[derive(Clone, Debug, PartialEq, Eq)]
pub struct SauTxUpdateData {
    pub seq_no: u64,
    pub proof_state: SauTxProofState,
    pub extra_data: Vec<u8>,
}

pub struct SauTxUpdateDataView {
    pub seq_no: u64,
    pub proof_state: SauTxProofState,
    pub extra_data: Seq<u8>,
}

impl View for SauTxUpdateData {
    type V = SauTxUpdateDataView;

    open spec fn view(&self) -> SauTxUpdateDataView {
        SauTxUpdateDataView {
            seq_no: self.seq_no,
            proof_state: self.proof_state,
            extra_data: self.extra_data@,
        }
    }
}

impl SauTxUpdateData {
    pub fn new(seq_no: u64, proof_state: SauTxProofState, extra_data: Vec<u8>) -> (r:
        SauTxUpdateData)
        ensures
            r@ == (SauTxUpdateDataView { seq_no, proof_state, extra_data: extra_data@ }),
    {
        SauTxUpdateData { seq_no, proof_state, extra_data }
    }

    pub fn seq_no(&self) -> (r: u64)
        ensures
            r == self.seq_no,
    {
        self.seq_no
    }

    pub fn proof_state(&self) -> (r: &SauTxProofState)
        ensures
            *r == self.proof_state,
    {
        &self.proof_state
    }

    pub fn extra_data(&self) -> (r: &[u8])
        ensures
            r@ == self.extra_data@,
    {
        self.extra_data.as_slice()
    }

    pub fn duplicate(&self) -> (r: SauTxUpdateData)
        ensures
            r@ == self@,
    {
        SauTxUpdateData {
            seq_no: self.seq_no,
            proof_state: self.proof_state,
            extra_data: copy_bytes(&self.extra_data),
        }
    }
}

/// The operation of a snark account update: the update, the inbox messages
/// it processes and its ledger references.
#[derive(Clone, Debug, PartialEq, Eq)]
pub struct SauTxOperationData {
    pub update_data: SauTxUpdateData,
    pub messages: Vec<MessageEntry>,
    pub ledger_refs: SauTxLedgerRefs,
}

pub struct SauTxOperationDataView {
    pub update_data: SauTxUpdateDataView,
    pub messages: Seq<MessageEntryView>,
    pub ledger_refs: Option<Seq<AccumulatorClaim>>,
}

impl View for SauTxOperationData {
    type V = SauTxOperationDataView;

    open spec fn view(&self) -> SauTxOperationDataView {
        SauTxOperationDataView {
            update_data: self.update_data@,
            messages: messages_view(self.messages@),
            ledger_refs: self.ledger_refs@,
        }
    }
}

impl SauTxOperationData {
    pub fn new(
        update_data: SauTxUpdateData,
        messages: Vec<MessageEntry>,
        ledger_refs: SauTxLedgerRefs,
    ) -> (r: SauTxOperationData)
        ensures
            r@ == (SauTxOperationDataView {
                update_data: update_data@,
                messages: messages_view(messages@),
                ledger_refs: ledger_refs@,
            }),
    {
        SauTxOperationData { update_data, messages, ledger_refs }
    }

    pub fn update(&self) -> (r: &SauTxUpdateData)
        ensures
            r@ == self.update_data@,
    {
        &self.update_data
    }

    pub fn messages(&self) -> (r: &Vec<MessageEntry>)
        ensures
            messages_view(r@) == messages_view(self.messages@),
    {
        &self.messages
    }

    pub fn ledger_refs(&self) -> (r: &SauTxLedgerRefs)
        ensures
            r@ == self.ledger_refs@,
    {
        &self.ledger_refs
    }

    pub fn duplicate(&self) -> (r: SauTxOperationData)
        ensures
            r@ == self@,
    {
        SauTxOperationData {
            update_data: self.update_data.duplicate(),
            messages: copy_messages(&self.messages),
            ledger_refs: self.ledger_refs.duplicate(),
        }
    }
}

/// Payload of a snark account update transaction.
#[derive(Clone, Debug, PartialEq, Eq)]
pub struct SauTxPayload {
    pub target: AccountId,
    pub operation_data: SauTxOperationData,
}

pub struct SauTxPayloadView {
    pub target: AccountId,
    pub operation_data: SauTxOperationDataView,
}

impl View for SauTxPayload {
    type V = SauTxPayloadView;

    open spec fn view(&self) -> SauTxPayloadView {
        SauTxPayloadView { target: self.target, operation_data: self.operation_data@ }
    }
}

impl SauTxPayload {
    pub fn new(target: AccountId, operation_data: SauTxOperationData) -> (r: SauTxPayload)
        ensures
            r@ == (SauTxPayloadView { target, operation_data: operation_data@ }),
    {
        SauTxPayload { target, operation_data }
    }

    pub fn target(&self) -> (r: &AccountId)
        ensures
            *r == self.target,
    {
        &self.target
    }

    pub fn operation(&self) -> (r: &SauTxOperationData)
        ensures
            r@ == self.operation_data@,
    {
        &self.operation_data
    }

    pub fn duplicate(&self) -> (r: SauTxPayload)
        ensures
            r@ == self@,
    {
        SauTxPayload { target: self.target, operation_data: self.operation_data.duplicate() }
    }
}

/// The payload of a transaction: what it does.
#[derive(Clone, Debug, PartialEq, Eq)]
pub enum TransactionPayload {
    GenericAccountMessage(GamTxPayload),
    SnarkAccountUpdate(SauTxPayload),
}

pub enum TransactionPayloadView {
    GenericAccountMessage(GamTxPayload),
    SnarkAccountUpdate(SauTxPayloadView),
}

impl View for TransactionPayload {
    type V = TransactionPayloadView;

    open spec fn view(&self) -> TransactionPayloadView {
        match self {
            TransactionPayload::GenericAccountMessage(g) => TransactionPayloadView::GenericAccountMessage(*g),
            TransactionPayload::SnarkAccountUpdate(s) => TransactionPayloadView::SnarkAccountUpdate(s@),
        }
    }
}

impl TransactionPayloadView {
    /// The account a payload is addressed to.
    pub open spec fn target(self) -> AccountId {
        match self {
            TransactionPayloadView::GenericAccountMessage(g) => g.target,
            TransactionPayloadView::SnarkAccountUpdate(s) => s.target,
        }
    }

    /// The sequence number of a snark account update; none for a message.
    pub open spec fn seq_no(self) -> Option<u64> {
        match self {
            TransactionPayloadView::GenericAccountMessage(_) => None,
            TransactionPayloadView::SnarkAccountUpdate(s) => Some(s.operation_data.update_data.seq_no),
        }
    }

    pub open spec fn type_id(self) -> TxTypeId {
        match self {
            TransactionPayloadView::GenericAccountMessage(_) => TxTypeId::GenericAccountMessage,
            TransactionPayloadView::SnarkAccountUpdate(_) => TxTypeId::SnarkAccountUpdate,
        }
    }
}

impl TransactionPayload {
    pub fn target(&self) -> (r: Option<AccountId>)
        ensures
            r == Some(self@.target()),
    {
        match self {
            TransactionPayload::GenericAccountMessage(msg) => Some(msg.target),
            TransactionPayload::SnarkAccountUpdate(update) => Some(update.target),
        }
    }

    /// The account the payload is addressed to (every payload has one).
    pub fn target_account(&self) -> (r: AccountId)
        ensures
            r == self@.target(),
    {
        match self {
            TransactionPayload::GenericAccountMessage(msg) => msg.target,
            TransactionPayload::SnarkAccountUpdate(update) => update.target,
        }
    }

    /// The sequence number of a snark account update; none for a message.
    pub fn seq_no(&self) -> (r: Option<u64>)
        ensures
            r == self@.seq_no(),
    {
        match self {
            TransactionPayload::GenericAccountMessage(_) => None,
            TransactionPayload::SnarkAccountUpdate(update) => Some(update.operation_data.update_data.seq_no),
        }
    }

    pub fn type_id(&self) -> (r: TxTypeId)
        ensures
            r == self@.type_id(),
    {
        match self {
            TransactionPayload::GenericAccountMessage(_) => TxTypeId::GenericAccountMessage,
            TransactionPayload::SnarkAccountUpdate(_) => TxTypeId::SnarkAccountUpdate,
        }
    }

    pub fn duplicate(&self) -> (r: TransactionPayload)
        ensures
            r@ == self@,
    {
        match self {
            TransactionPayload::GenericAccountMessage(g) => TransactionPayload::GenericAccountMessage(*g),
            TransactionPayload::SnarkAccountUpdate(s) => TransactionPayload::SnarkAccountUpdate(s.duplicate()),
        }
    }
}

/// A message a transaction sends to an account.
#[derive(Clone, Debug, PartialEq, Eq)]
pub struct SentMessage {
    pub dest: AccountId,
    pub value: u64,
    pub data: Vec<u8>,
}

pub struct SentMessageView {
    pub dest: AccountId,
    pub value: u64,
    pub data: Seq<u8>,
}

impl View for SentMessage {
    type V = SentMessageView;

    open spec fn view(&self) -> SentMessageView {
        SentMessageView { dest: self.dest, value: self.value, data: self.data@ }
    }
}

pub open spec fn sent_view(v: Seq<SentMessage>) -> Seq<SentMessageView> {
    v.map_values(|m: SentMessage| m@)
}

/// The effects of a transaction: the messages it sends.
#[derive(Clone, Debug, PartialEq, Eq)]
pub struct TxEffects {
    pub messages: Vec<SentMessage>,
}

impl View for TxEffects {
    type V = Seq<SentMessageView>;

    open spec fn view(&self) -> Seq<SentMessageView> {
        sent_view(self.messages@)
    }
}

impl TxEffects {
    /// No effects.
    pub fn empty() -> (r: TxEffects)
        ensures
            r@ == Seq::<SentMessageView>::empty(),
    {
        let r = TxEffects { messages: Vec::new() };
        assert(r@ =~= Seq::<SentMessageView>::empty());
        r
    }

    /// Appends a message to `dest` carrying `value` and `data`.
    pub fn push_message(&mut self, dest: AccountId, value: u64, data: Vec<u8>)
        ensures
            final(self)@ == old(self)@.push(SentMessageView { dest, value, data: data@ }),
    {
        self.messages.push(SentMessage { dest, value, data });
        assert(final(self)@ =~= old(self)@.push(SentMessageView { dest, value, data: data@ }));
    }

    pub fn duplicate(&self) -> (r: TxEffects)
        ensures
            r@ == self@,
    {
        let mut out: Vec<SentMessage> = Vec::new();
        let mut i: usize = 0;
        while i < self.messages.len()
            invariant
                i <= self.messages.len(),
                out@.len() == i,
                forall|k: int| 0 <= k < i ==> #[trigger] out@[k]@ == self.messages@[k]@,
            decreases self.messages.len() - i,
        {
            let m = &self.messages[i];
            out.push(SentMessage { dest: m.dest, value: m.value, data: copy_bytes(&m.data) });
            i += 1;
        }
        let r = TxEffects { messages: out };
        assert(r@ =~= self@);
        r
    }
}

/// The signed-over content of a transaction.
#[derive(Clone, Debug, PartialEq, Eq)]
pub struct OLTransactionData {
    pub payload: TransactionPayload,
    pub constraints: TxConstraints,
    pub effects: TxEffects,
}

pub struct OLTransactionDataView {
    pub payload: TransactionPayloadView,
    pub constraints: TxConstraints,
    pub effects: Seq<SentMessageView>,
}

impl View for OLTransactionData {
    type V = OLTransactionDataView;

    open spec fn view(&self) -> OLTransactionDataView {
        OLTransactionDataView {
            payload: self.payload@,
            constraints: self.constraints,
            effects: self.effects@,
        }
    }
}

impl OLTransactionData {
    /// Transaction data with the given payload and effects and no slot bounds.
    pub fn new(payload: TransactionPayload, effects: TxEffects) -> (r: OLTransactionData)
        ensures
            r@ == (OLTransactionDataView {
                payload: payload@,
                constraints: TxConstraints { min_slot: None, max_slot: None },
                effects: effects@,
            }),
    {
        OLTransactionData { payload, constraints: TxConstraints::unbounded(), effects }
    }

    /// A message transaction to `dest` that sends it one zero-value message
    /// carrying `data`, with no slot bounds.
    pub fn new_gam(dest: AccountId, data: Vec<u8>) -> (r: OLTransactionData)
        ensures
            r@ == (OLTransactionDataView {
                payload: TransactionPayloadView::GenericAccountMessage(GamTxPayload { target: dest }),
                constraints: TxConstraints { min_slot: None, max_slot: None },
                effects: seq![SentMessageView { dest, value: 0, data: data@ }],
            }),
    {
        let payload = TransactionPayload::GenericAccountMessage(GamTxPayload { target: dest });
        let mut effects = TxEffects::empty();
        effects.push_message(dest, 0, data);
        OLTransactionData { payload, constraints: TxConstraints::unbounded(), effects }
    }

    /// The same data with `constraints` in place of its slot bounds.
    pub fn with_constraints(self, constraints: TxConstraints) -> (r: OLTransactionData)
        ensures
            r@ == (OLTransactionDataView { constraints, ..self@ }),
    {
        OLTransactionData { constraints, ..self }
    }

    pub fn payload(&self) -> (r: &TransactionPayload)
        ensures
            r@ == self.payload@,
    {
        &self.payload
    }

    pub fn constraints(&self) -> (r: &TxConstraints)
        ensures
            *r == self.constraints,
    {
        &self.constraints
    }

    pub fn effects(&self) -> (r: &TxEffects)
        ensures
            r@ == self.effects@,
    {
        &self.effects
    }

    pub fn duplicate(&self) -> (r: OLTransactionData)
        ensures
            r@ == self@,
    {
        OLTransactionData {
            payload: self.payload.duplicate(),
            constraints: self.constraints,
            effects: self.effects.duplicate(),
        }
    }
}

/// Proofs attached to a transaction: predicate satisfiers and accumulator
/// proofs, each an optional list of raw proofs.
#[derive(Clone, Debug, PartialEq, Eq)]
pub struct TxProofs {
    pub predicate_satisfiers: Option<Vec<Vec<u8>>>,
    pub accumulator_proofs: Option<Vec<Vec<u8>>>,
}

pub struct TxProofsView {
    pub predicate_satisfiers: Option<Seq<Seq<u8>>>,
    pub accumulator_proofs: Option<Seq<Seq<u8>>>,
}

impl View for TxProofs {
    type V = TxProofsView;

    open spec fn view(&self) -> TxProofsView {
        TxProofsView {
            predicate_satisfiers: opt_bytes_list_view(self.predicate_satisfiers),
            accumulator_proofs: opt_bytes_list_view(self.accumulator_proofs),
        }
    }
}

impl TxProofs {
    pub fn new_empty() -> (r: TxProofs)
        ensures
            r@ == (TxProofsView { predicate_satisfiers: None, accumulator_proofs: None }),
    {
        TxProofs { predicate_satisfiers: None, accumulator_proofs: None }
    }

    pub fn new(
        predicate_satisfiers: Option<Vec<Vec<u8>>>,
        accumulator_proofs: Option<Vec<Vec<u8>>>,
    ) -> (r: TxProofs)
        ensures
            r@ == (TxProofsView {
                predicate_satisfiers: opt_bytes_list_view(predicate_satisfiers),
                accumulator_proofs: opt_bytes_list_view(accumulator_proofs),
            }),
    {
        TxProofs { predicate_satisfiers, accumulator_proofs }
    }

    pub fn predicate_satisfiers(&self) -> (r: Option<&Vec<Vec<u8>>>)
        ensures
            self.predicate_satisfiers is None ==> r is None,
            self.predicate_satisfiers matches Some(v) ==> (r matches Some(x) && bytes_list_view(x@)
                == bytes_list_view(v@)),
    {
        match &self.predicate_satisfiers {
            Some(v) => Some(v),
            None => None,
        }
    }

    pub fn accumulator_proofs(&self) -> (r: Option<&Vec<Vec<u8>>>)
        ensures
            self.accumulator_proofs is None ==> r is None,
            self.accumulator_proofs matches Some(v) ==> (r matches Some(x) && bytes_list_view(x@)
                == bytes_list_view(v@)),
    {
        match &self.accumulator_proofs {
            Some(v) => Some(v),
            None => None,
        }
    }

    /// The same proofs with the accumulator proofs replaced.
    pub fn with_accumulator_proofs(self, accumulator_proofs: Option<Vec<Vec<u8>>>) -> (r: TxProofs)
        ensures
            r@ == (TxProofsView {
                accumulator_proofs: opt_bytes_list_view(accumulator_proofs),
                ..self@
            }),
    {
        TxProofs { accumulator_proofs, ..self }
    }

    pub fn duplicate(&self) -> (r: TxProofs)
        ensures
            r@ == self@,
    {
        TxProofs {
            predicate_satisfiers: copy_opt_bytes_list(&self.predicate_satisfiers),
            accumulator_proofs: copy_opt_bytes_list(&self.accumulator_proofs),
        }
    }
}

/// An OL transaction: its data and the proofs that authorize it.
#[derive(Clone, Debug, PartialEq, Eq)]
pub struct OLTransaction {
    pub data: OLTransactionData,
    pub proofs: TxProofs,
}

pub struct OLTransactionView {
    pub data: OLTransactionDataView,
    pub proofs: TxProofsView,
}

impl View for OLTransaction {
    type V = OLTransactionView;

    open spec fn view(&self) -> OLTransactionView {
        OLTransactionView { data: self.data@, proofs: self.proofs@ }
    }
}

impl OLTransactionView {
    pub open spec fn target(self) -> AccountId {
        self.data.payload.target()
    }

    pub open spec fn seq_no(self) -> Option<u64> {
        self.data.payload.seq_no()
    }

    pub open spec fn constraints(self) -> TxConstraints {
        self.data.constraints
    }
}

impl OLTransaction {
    pub fn new(data: OLTransactionData, proofs: TxProofs) -> (r: OLTransaction)
        ensures
            r@ == (OLTransactionView { data: data@, proofs: proofs@ }),
    {
        OLTransaction { data, proofs }
    }

    pub fn data(&self) -> (r: &OLTransactionData)
        ensures
            r@ == self.data@,
    {
        &self.data
    }

    pub fn proofs(&self) -> (r: &TxProofs)
        ensures
            r@ == self.proofs@,
    {
        &self.proofs
    }

    pub fn constraints(&self) -> (r: &TxConstraints)
        ensures
            *r == self@.constraints(),
    {
        &self.data.constraints
    }

    pub fn payload(&self) -> (r: &TransactionPayload)
        ensures
            r@ == self.data.payload@,
    {
        &self.data.payload
    }

    pub fn target(&self) -> (r: Option<AccountId>)
        ensures
            r == Some(self@.target()),
    {
        self.data.payload.target()
    }

    pub fn type_id(&self) -> (r: TxTypeId)
        ensures
            r == self@.data.payload.type_id(),
    {
        self.data.payload.type_id()
    }

    /// The same transaction with its accumulator proofs replaced.
    pub fn with_accumulator_proofs(self, accumulator_proofs: Option<Vec<Vec<u8>>>) -> (r:
        OLTransaction)
        ensures
            r@ == (OLTransactionView {
                data: self.data@,
                proofs: TxProofsView {
                    accumulator_proofs: opt_bytes_list_view(accumulator_proofs),
                    ..self.proofs@
                },
            }),
    {
        let proofs = self.proofs.with_accumulator_proofs(accumulator_proofs);
        OLTransaction { data: self.data, proofs }
    }

    pub fn duplicate(&self) -> (r: OLTransaction)
        ensures
            r@ == self@,
    {
        OLTransaction { data: self.data.duplicate(), proofs: self.proofs.duplicate() }
    }
}

} // verus!
