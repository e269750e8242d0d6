//! The per-epoch accumulator of data-availability (DA) writes: which
//! accounts were created, how touched accounts changed, and which inbox
//! messages they received, checked as they are recorded and turned into a
//! ledger diff at the end of the epoch.
//!
//! The counters, registers and encodings that the DA format packs these
//! changes into belong to the DA framework; here a change is kept as its
//! values before and after.

use vstd::prelude::*;

use crate::chain::transaction::copy_bytes;
use crate::ids::{bytes32_eq, AccountId};

verus! {

/// Kind of an account.
#[derive(Clone, Copy, Debug, PartialEq, Eq, Structural)]
pub enum AccountTypeId {
    Empty,
    Snark,
}

/// A snark account's proof state: its inner state root and the index of the
/// next inbox message to read.
#[derive(Clone, Copy, Debug, PartialEq, Eq)]
pub struct ProofStateModel {
    pub inner_state_root: [u8; 32],
    pub next_inbox_msg_idx: u64,
}

/// The snark part of an account's state: sequence number and proof state.
#[derive(Clone, Copy, Debug, PartialEq, Eq)]
pub struct SnarkStateModel {
    pub seq_no: u64,
    pub proof_state: ProofStateModel,
}

/// What the accumulator reads of an account's state.
#[derive(Clone, Copy, Debug, PartialEq, Eq)]
pub struct AccountStateModel {
    pub serial: u32,
    pub balance: u64,
    pub ty: AccountTypeId,
    pub snark: Option<SnarkStateModel>,
}

/// Limits of the DA format.
#[derive(Clone, Copy, Debug, PartialEq, Eq, Structural)]
pub struct DaLimits {
    /// Largest verification key of a new snark account, in bytes.
    pub max_vk_bytes: usize,
    /// Largest inbox message payload, in bytes.
    pub max_msg_payload_bytes: usize,
    /// Most inbox messages an account may receive in one epoch.
    pub max_inbox_entries: usize,
}

/// An inbox message as the DA payload carries it.
#[derive(Clone, Debug)]
pub struct DaMessage {
    pub source: AccountId,
    pub incl_epoch: u32,
    pub value: u64,
    pub data: Vec<u8>,
}

pub struct DaMessageView {
    pub source: AccountId,
    pub incl_epoch: u32,
    pub value: u64,
    pub data: Seq<u8>,
}

impl View for DaMessage {
    type V = DaMessageView;

    open spec fn view(&self) -> DaMessageView {
        DaMessageView { source: self.source, incl_epoch: self.incl_epoch, value: self.value, data: self.data@ }
    }
}

impl DaMessage {
    pub fn duplicate(&self) -> (r: DaMessage)
        ensures
            r@ == self@,
    {
        DaMessage { source: self.source, incl_epoch: self.incl_epoch, value: self.value, data: copy_bytes(&self.data) }
    }
}

/// An inbox message written to `account_id` during a block.
#[derive(Clone, Debug)]
pub struct InboxMessage {
    pub account_id: AccountId,
    pub entry: DaMessage,
}

/// The values of a sequence of messages.
pub open spec fn msg_views(s: Seq<DaMessage>) -> Seq<DaMessageView> {
    s.map_values(|m: DaMessage| m@)
}

/// The values of a sequence of inbox writes.
pub open spec fn inbox_views(s: Seq<InboxMessage>) -> Seq<(AccountId, DaMessageView)> {
    s.map_values(|m: InboxMessage| (m.account_id, m.entry@))
}

/// How a snark account changed over the epoch so far.
#[derive(Clone, Debug)]
pub struct SnarkDelta {
    pub base_seq_no: u64,
    pub final_seq_no: u64,
    pub base_proof_state: ProofStateModel,
    pub final_proof_state: ProofStateModel,
    pub inbox: Vec<DaMessage>,
    pub last_extra_data: Option<Vec<u8>>,
}

pub struct SnarkDeltaView {
    pub base_seq_no: u64,
    pub final_seq_no: u64,
    pub base_proof_state: ProofStateModel,
    pub final_proof_state: ProofStateModel,
    pub inbox: Seq<DaMessageView>,
    pub last_extra_data: Option<Seq<u8>>,
}

pub open spec fn opt_bytes_view(o: Option<Vec<u8>>) -> Option<Seq<u8>> {
    match o {
        Some(v) => Some(v@),
        None => None,
    }
}

impl View for SnarkDelta {
    type V = SnarkDeltaView;

    open spec fn view(&self) -> SnarkDeltaView {
        SnarkDeltaView {
            base_seq_no: self.base_seq_no,
            final_seq_no: self.final_seq_no,
            base_proof_state: self.base_proof_state,
            final_proof_state: self.final_proof_state,
            inbox: msg_views(self.inbox@),
            last_extra_data: opt_bytes_view(self.last_extra_data),
        }
    }
}

/// How an account changed over the epoch so far.
#[derive(Clone, Debug)]
pub struct AccountDelta {
    pub serial: u32,
    pub base_balance: u64,
    pub final_balance: u64,
    pub ty: AccountTypeId,
    pub snark: Option<SnarkDelta>,
}

pub struct AccountDeltaView {
    pub serial: u32,
    pub base_balance: u64,
    pub final_balance: u64,
    pub ty: AccountTypeId,
    pub snark: Option<SnarkDeltaView>,
}

impl View for AccountDelta {
    type V = AccountDeltaView;

    open spec fn view(&self) -> AccountDeltaView {
        AccountDeltaView {
            serial: self.serial,
            base_balance: self.base_balance,
            final_balance: self.final_balance,
            ty: self.ty,
            snark: match self.snark {
                Some(s) => Some(s@),
                None => None,
            },
        }
    }
}

/// The delta of an account first touched in state `st`: nothing changed yet.
pub open spec fn fresh_delta(st: AccountStateModel) -> AccountDeltaView {
    AccountDeltaView {
        serial: st.serial,
        base_balance: st.balance,
        final_balance: st.balance,
        ty: st.ty,
        snark: match st.snark {
            Some(s) => Some(
                SnarkDeltaView {
                    base_seq_no: s.seq_no,
                    final_seq_no: s.seq_no,
                    base_proof_state: s.proof_state,
                    final_proof_state: s.proof_state,
                    inbox: Seq::empty(),
                    last_extra_data: None,
                },
            ),
            None => None,
        },
    }
}

/// Errors while accumulating an epoch's DA writes.
#[derive(Clone, Debug, PartialEq, Eq)]
pub enum DaAccumulationError {
    /// Account state missing when assembling diffs.
    MissingAccountState(AccountId),
    /// No pre-state was recorded for a touched account.
    MissingPreState(AccountId),
    /// The account's type changed during the epoch.
    AccountTypeChanged { account_id: AccountId, expected: AccountTypeId, actual: AccountTypeId },
    /// A snark diff or inbox write for an account with no snark state.
    MissingSnarkState(AccountId),
    /// An inbox message written to another account than the one updated.
    InboxAccountMismatch { expected: AccountId, actual: AccountId },
    /// An inbox message whose source is not in the ledger.
    MessageSourceMissing(AccountId),
    /// Two account diffs, or a diff and a new account, share a serial.
    DuplicateAccountSerial(u32),
    /// An account was recorded as new twice.
    DuplicateNewAccountId(AccountId),
    /// New account serials are not contiguous from the expected first one.
    NewAccountSerialGap(u32, u32),
    /// A new account's verification key exceeds the limit.
    VkTooLarge { provided: usize, max: usize },
    /// An inbox message payload exceeds the limit.
    MessagePayloadTooLarge { provided: usize, max: usize },
    /// An account received more inbox messages than the limit.
    InboxBufferFull { account_id: AccountId, max: usize },
    /// A snark account's sequence number or next inbox index changed in a
    /// way its DA counter cannot record.
    CounterOutOfRange(AccountId),
}

/// The accumulator's value.
pub struct AccumulatorView {
    pub limits: DaLimits,
    pub expected_first_serial: Option<u32>,
    pub new_accounts: Seq<(u32, AccountId)>,
    pub deltas: Seq<(AccountId, AccountDeltaView)>,
}

/// Per-epoch accumulator of DA writes.
pub struct EpochDaAccumulator {
    limits: DaLimits,
    expected_first_serial: Option<u32>,
    /// Serial and id of each account created, in the order recorded.
    new_account_records: Vec<(u32, AccountId)>,
    /// The delta of each touched account, in the order first touched.
    account_deltas: Vec<(AccountId, AccountDelta)>,
}

pub open spec fn delta_views(s: Seq<(AccountId, AccountDelta)>) -> Seq<(AccountId, AccountDeltaView)> {
    s.map_values(|p: (AccountId, AccountDelta)| (p.0, p.1@))
}

impl View for EpochDaAccumulator {
    type V = AccumulatorView;

    closed spec fn view(&self) -> AccumulatorView {
        AccumulatorView {
            limits: self.limits,
            expected_first_serial: self.expected_first_serial,
            new_accounts: self.new_account_records@,
            deltas: delta_views(self.account_deltas@),
        }
    }
}

/// `i` is the first position of `s` keyed by `id`.
pub open spec fn first_key<V>(s: Seq<(AccountId, V)>, id: AccountId, i: int) -> bool {
    &&& 0 <= i < s.len()
    &&& s[i].0 == id
    &&& forall|k: int| 0 <= k < i ==> (#[trigger] s[k]).0 != id
}

/// The first position of `s` keyed by `id`, if any.
pub open spec fn key_index<V>(s: Seq<(AccountId, V)>, id: AccountId) -> Option<int> {
    if exists|i: int| first_key(s, id, i) {
        Some(choose|i: int| first_key(s, id, i))
    } else {
        None
    }
}

/// There is only one first position of a key.
pub proof fn lemma_first_key_unique<V>(s: Seq<(AccountId, V)>, id: AccountId, i: int)
    requires
        first_key(s, id, i),
    ensures
        key_index(s, id) == Some(i),
{
    let j = choose|j: int| first_key(s, id, j);
    if j < i {
        assert(s[j].0 != id);
    } else if i < j {
        assert(s[i].0 != id);
    }
}

/// No position holds `id` when it has no first position.
pub proof fn lemma_key_absent<V>(s: Seq<(AccountId, V)>, id: AccountId)
    requires
        key_index(s, id) is None,
    ensures
        forall|k: int| 0 <= k < s.len() ==> (#[trigger] s[k]).0 != id,
{
    assert forall|k: int| 0 <= k < s.len() implies (#[trigger] s[k]).0 != id by {
        if s[k].0 == id {
            lemma_first_exists(s, id, k);
        }
    }
}

proof fn lemma_first_exists<V>(s: Seq<(AccountId, V)>, id: AccountId, k: int)
    requires
        0 <= k < s.len(),
        s[k].0 == id,
    ensures
        exists|i: int| first_key(s, id, i),
    decreases k,
{
    if forall|m: int| 0 <= m < k ==> (#[trigger] s[m]).0 != id {
        assert(first_key(s, id, k));
    } else {
        let m = choose|m: int| 0 <= m < k && (#[trigger] s[m]).0 != id == false;
        lemma_first_exists(s, id, m);
    }
}

/// Finds the first position keyed by `id`.
fn find_key<V>(s: &Vec<(AccountId, V)>, id: &AccountId) -> (r: Option<usize>)
    ensures
        r matches Some(i) ==> key_index(s@, *id) == Some(i as int),
        r is None ==> key_index(s@, *id) is None,
{
    let mut i: usize = 0;
    while i < s.len()
        invariant
            i <= s@.len(),
            forall|k: int| 0 <= k < i ==> (#[trigger] s@[k]).0 != *id,
        decreases s.len() - i,
    {
        if s[i].0.same(id) {
            proof {
                lemma_first_key_unique(s@, *id, i as int);
            }
            return Some(i);
        }
        i += 1;
    }
    None
}

/// No account has two deltas.
pub open spec fn unique_keys(deltas: Seq<(AccountId, AccountDeltaView)>) -> bool {
    forall|i: int, j: int| 0 <= i < deltas.len() && 0 <= j < deltas.len() && i != j ==> deltas[i].0 != deltas[j].0
}

impl AccumulatorView {
    pub open spec fn wf(self) -> bool {
        unique_keys(self.deltas)
    }
}

/// The keys of the delta views are those of the deltas.
proof fn lemma_key_index_views(s: Seq<(AccountId, AccountDelta)>, id: AccountId)
    ensures
        key_index(delta_views(s), id) == key_index(s, id),
{
    let v = delta_views(s);
    if exists|i: int| first_key(s, id, i) {
        let i = choose|i: int| first_key(s, id, i);
        assert forall|k: int| 0 <= k < i implies (#[trigger] v[k]).0 != id by {
            assert(s[k].0 != id);
        }
        assert(first_key(v, id, i));
        lemma_first_key_unique(v, id, i);
    } else if exists|i: int| first_key(v, id, i) {
        let i = choose|i: int| first_key(v, id, i);
        assert forall|k: int| 0 <= k < i implies (#[trigger] s[k]).0 != id by {
            assert(v[k].0 != id);
        }
        assert(first_key(s, id, i));
    }
}

/// Whether an account with id `id` was recorded as new.
pub open spec fn recorded_new(new_accounts: Seq<(u32, AccountId)>, id: AccountId) -> bool {
    exists|k: int| 0 <= k < new_accounts.len() && new_accounts[k].1 == id
}

/// The first error, if any, of writing the inbox messages `inbox` in order
/// to account `id`, whose delta has snark state (`has_snark`) and already
/// holds `held` messages; `exists[k]` tells whether the source of the `k`-th
/// message is an account of the ledger.
pub open spec fn inbox_error(
    limits: DaLimits,
    id: AccountId,
    has_snark: bool,
    held: nat,
    inbox: Seq<(AccountId, DaMessageView)>,
    exists: Seq<bool>,
) -> Option<DaAccumulationError>
    decreases inbox.len(),
{
    if inbox.len() == 0 {
        None
    } else {
        let m = inbox[0];
        if m.0 != id {
            Some(DaAccumulationError::InboxAccountMismatch { expected: id, actual: m.0 })
        } else if !has_snark {
            Some(DaAccumulationError::MissingSnarkState(id))
        } else if m.1.data.len() > limits.max_msg_payload_bytes {
            Some(
                DaAccumulationError::MessagePayloadTooLarge {
                    provided: m.1.data.len() as usize,
                    max: limits.max_msg_payload_bytes,
                },
            )
        } else if !exists[0] {
            Some(DaAccumulationError::MessageSourceMissing(m.1.source))
        } else if held >= limits.max_inbox_entries {
            Some(DaAccumulationError::InboxBufferFull { account_id: id, max: limits.max_inbox_entries })
        } else {
            inbox_error(limits, id, has_snark, held + 1, inbox.drop_first(), exists.drop_first())
        }
    }
}

/// The number of inbox messages a delta holds.
pub open spec fn held_messages(d: AccountDeltaView) -> nat {
    match d.snark {
        Some(sn) => sn.inbox.len(),
        None => 0,
    }
}

/// What recording the update of account `id` to state `post`, with inbox
/// messages `inbox`, gives: the error, if the account was not tracked, its
/// type changed, or a message is refused (see [`inbox_error`]).
pub open spec fn record_result(
    acc: AccumulatorView,
    id: AccountId,
    post: AccountStateModel,
    inbox: Seq<(AccountId, DaMessageView)>,
    exists: Seq<bool>,
) -> Result<(), DaAccumulationError> {
    match key_index(acc.deltas, id) {
        None => Err(DaAccumulationError::MissingPreState(id)),
        Some(i) => {
            let d = acc.deltas[i].1;
            if post.ty != d.ty {
                Err(DaAccumulationError::AccountTypeChanged { account_id: id, expected: d.ty, actual: post.ty })
            } else {
                match inbox_error(acc.limits, id, d.snark is Some, held_messages(d), inbox, exists) {
                    Some(e) => Err(e),
                    None => Ok(()),
                }
            }
        },
    }
}

/// The delta `d` after an update to state `post` that wrote `inbox` and, if
/// `extra` is some, new extra data: the final balance and snark state are
/// those of `post`, the messages are appended, and the extra data replaced.
pub open spec fn updated_delta(
    d: AccountDeltaView,
    post: AccountStateModel,
    inbox: Seq<(AccountId, DaMessageView)>,
    extra: Option<Seq<u8>>,
) -> AccountDeltaView {
    AccountDeltaView {
        final_balance: post.balance,
        snark: match d.snark {
            Some(sn) => Some(
                SnarkDeltaView {
                    final_seq_no: match post.snark {
                        Some(p) => p.seq_no,
                        None => sn.final_seq_no,
                    },
                    final_proof_state: match post.snark {
                        Some(p) => p.proof_state,
                        None => sn.final_proof_state,
                    },
                    inbox: sn.inbox + inbox.map_values(|m: (AccountId, DaMessageView)| m.1),
                    last_extra_data: match extra {
                        Some(x) => Some(x),
                        None => sn.last_extra_data,
                    },
                    ..sn
                },
            ),
            None => None,
        },
        ..d
    }
}

/// What an update records in a delta: the balance after the update, every
/// message written to the account appended after those it already held, in
/// order, and the update's extra data, when it carries some, as the last
/// extra data (otherwise the last extra data stays as it was).
pub proof fn lemma_update_records(
    d: AccountDeltaView,
    post: AccountStateModel,
    inbox: Seq<(AccountId, DaMessageView)>,
    extra: Option<Seq<u8>>,
)
    ensures
        updated_delta(d, post, inbox, extra).final_balance == post.balance,
        updated_delta(d, post, inbox, extra).base_balance == d.base_balance,
        d.snark is Some ==> {
            let s0 = d.snark->0;
            let s1 = updated_delta(d, post, inbox, extra).snark->0;
            &&& updated_delta(d, post, inbox, extra).snark is Some
            &&& s1.inbox.len() == s0.inbox.len() + inbox.len()
            &&& forall|k: int| 0 <= k < s0.inbox.len() ==> #[trigger] s1.inbox[k] == s0.inbox[k]
            &&& forall|k: int| 0 <= k < inbox.len() ==> #[trigger] s1.inbox[s0.inbox.len() + k] == inbox[k].1
            &&& extra is Some ==> s1.last_extra_data == extra
            &&& extra is None ==> s1.last_extra_data == s0.last_extra_data
        },
{
}

/// The accumulator after a successful [`record_result`].
pub open spec fn record_update(
    acc: AccumulatorView,
    id: AccountId,
    post: AccountStateModel,
    inbox: Seq<(AccountId, DaMessageView)>,
    extra: Option<Seq<u8>>,
) -> AccumulatorView {
    let i = key_index(acc.deltas, id)->0;
    AccumulatorView {
        deltas: acc.deltas.update(i, (id, updated_delta(acc.deltas[i].1, post, inbox, extra))),
        ..acc
    }
}

/// Copies a list of messages.
fn copy_msgs(v: &Vec<DaMessage>) -> (r: Vec<DaMessage>)
    ensures
        msg_views(r@) == msg_views(v@),
{
    let mut out: Vec<DaMessage> = Vec::new();
    let mut i: usize = 0;
    while i < v.len()
        invariant
            i <= v@.len(),
            out@.len() == i,
            msg_views(out@) == msg_views(v@.take(i as int)),
        decreases v.len() - i,
    {
        let ghost before = out@;
        let m = v[i].duplicate();
        out.push(m);
        proof {
            assert(out@ == before.push(m));
            assert forall|k: int| 0 <= k < i + 1 implies msg_views(out@)[k] == msg_views(v@.take(i + 1))[k] by {
                if k < i {
                    assert(msg_views(before)[k] == msg_views(v@.take(i as int))[k]);
                }
            }
            assert(msg_views(out@) =~= msg_views(v@.take(i + 1)));
        }
        i += 1;
    }
    assert(v@.take(v@.len() as int) =~= v@);
    out
}

/// Initial data of a snark account.
#[derive(Clone, Debug)]
pub struct SnarkAccountInit {
    pub initial_state_root: [u8; 32],
    pub update_vk: Vec<u8>,
}

/// Initial data of a new account: its balance and, for a snark account,
/// its snark data.
#[derive(Clone, Debug)]
pub struct AccountInit {
    pub balance: u64,
    pub snark: Option<SnarkAccountInit>,
}

pub struct AccountInitView {
    pub balance: u64,
    pub snark: Option<([u8; 32], Seq<u8>)>,
}

impl View for AccountInit {
    type V = AccountInitView;

    open spec fn view(&self) -> AccountInitView {
        AccountInitView {
            balance: self.balance,
            snark: match self.snark {
                Some(sn) => Some((sn.initial_state_root, sn.update_vk@)),
                None => None,
            },
        }
    }
}

impl AccountInit {
    pub fn duplicate(&self) -> (r: AccountInit)
        ensures
            r@ == self@,
    {
        AccountInit {
            balance: self.balance,
            snark: match &self.snark {
                Some(sn) => Some(
                    SnarkAccountInit {
                        initial_state_root: sn.initial_state_root,
                        update_vk: copy_bytes(&sn.update_vk),
                    },
                ),
                None => None,
            },
        }
    }
}

/// The values of the initial data given for accounts.
pub open spec fn init_views(s: Seq<(AccountId, AccountInit)>) -> Seq<(AccountId, AccountInitView)> {
    s.map_values(|p: (AccountId, AccountInit)| (p.0, p.1@))
}

/// A new account of the ledger diff.
#[derive(Clone, Debug)]
pub struct NewAccountEntry {
    pub account_id: AccountId,
    pub init: AccountInit,
}

/// How a snark account changed over the epoch: its sequence number and
/// next inbox index before and after, its inner state root if it changed,
/// the messages it received and its last extra data.
#[derive(Debug)]
pub struct SnarkAccountDiff {
    pub seq_no: (u64, u64),
    pub inner_state: Option<[u8; 32]>,
    pub next_inbox_msg_idx: (u64, u64),
    pub inbox: Vec<DaMessage>,
    pub extra_data: Option<Vec<u8>>,
}

pub struct SnarkDiffView {
    pub seq_no: (u64, u64),
    pub inner_state: Option<[u8; 32]>,
    pub next_inbox_msg_idx: (u64, u64),
    pub inbox: Seq<DaMessageView>,
    pub extra_data: Option<Seq<u8>>,
}

/// How an account changed over the epoch: its balance before and after,
/// and its snark changes for a snark account.
#[derive(Debug)]
pub struct AccountDiff {
    pub balance: (u64, u64),
    pub snark: Option<SnarkAccountDiff>,
}

pub struct AccountDiffView {
    pub balance: (u64, u64),
    pub snark: Option<SnarkDiffView>,
}

impl View for AccountDiff {
    type V = AccountDiffView;

    open spec fn view(&self) -> AccountDiffView {
        AccountDiffView {
            balance: self.balance,
            snark: match self.snark {
                Some(sn) => Some(
                    SnarkDiffView {
                        seq_no: sn.seq_no,
                        inner_state: sn.inner_state,
                        next_inbox_msg_idx: sn.next_inbox_msg_idx,
                        inbox: msg_views(sn.inbox@),
                        extra_data: opt_bytes_view(sn.extra_data),
                    },
                ),
                None => None,
            },
        }
    }
}

/// A changed account of the ledger diff, keyed by its serial.
#[derive(Debug)]
pub struct AccountDiffEntry {
    pub account_serial: u32,
    pub diff: AccountDiff,
}

/// The ledger part of an epoch's state diff.
#[derive(Debug)]
pub struct LedgerDiff {
    pub new_accounts: Vec<NewAccountEntry>,
    pub account_diffs: Vec<AccountDiffEntry>,
}

pub struct LedgerDiffView {
    pub new_accounts: Seq<(AccountId, AccountInitView)>,
    pub account_diffs: Seq<(u32, AccountDiffView)>,
}

impl View for LedgerDiff {
    type V = LedgerDiffView;

    open spec fn view(&self) -> LedgerDiffView {
        LedgerDiffView {
            new_accounts: self.new_accounts@.map_values(|e: NewAccountEntry| (e.account_id, e.init@)),
            account_diffs: self.account_diffs@.map_values(|e: AccountDiffEntry| (e.account_serial, e.diff@)),
        }
    }
}

/// `i` is the first position of `s` whose serial is above `t`.
pub open spec fn first_above<X>(s: Seq<(u32, X)>, t: u32, i: int) -> bool {
    &&& 0 <= i < s.len()
    &&& s[i].0 > t
    &&& forall|k: int| 0 <= k < i ==> (#[trigger] s[k]).0 <= t
}

/// Where an item with serial `t` goes among `s`: before the first with a
/// higher serial, or at the end.
pub open spec fn above_pos<X>(s: Seq<(u32, X)>, t: u32) -> int {
    if exists|i: int| first_above(s, t, i) {
        choose|i: int| first_above(s, t, i)
    } else {
        s.len() as int
    }
}

/// The items ordered by serial, those with equal serials in the order given.
pub open spec fn sort_by_serial<X>(s: Seq<(u32, X)>) -> Seq<(u32, X)>
    decreases s.len(),
{
    if s.len() == 0 {
        s
    } else {
        let r = sort_by_serial(s.drop_last());
        r.insert(above_pos(r, s.last().0), s.last())
    }
}

proof fn lemma_first_above_unique<X>(s: Seq<(u32, X)>, t: u32, i: int)
    requires
        first_above(s, t, i),
    ensures
        above_pos(s, t) == i,
{
    let j = choose|j: int| first_above(s, t, j);
    if j < i {
        assert(s[j].0 <= t);
    } else if i < j {
        assert(s[i].0 <= t);
    }
}

/// The first position with a serial difference: `k` is where the serials
/// stop counting up from the first one.
pub open spec fn first_gap(sorted: Seq<(u32, AccountId)>, k: int) -> bool {
    &&& 0 < k < sorted.len()
    &&& sorted[k].0 != sorted[0].0 + k
    &&& forall|m: int| 0 < m < k ==> (#[trigger] sorted[m]).0 == sorted[0].0 + m
}

/// The error, if any, of the new account serials `sorted` (in serial
/// order): the first does not match the expected first serial, or they do
/// not count up one by one.
pub open spec fn serial_gap(sorted: Seq<(u32, AccountId)>, expected: Option<u32>) -> Option<DaAccumulationError> {
    if sorted.len() == 0 {
        None
    } else if expected is Some && sorted[0].0 != expected->0 {
        Some(DaAccumulationError::NewAccountSerialGap(expected->0, sorted[0].0))
    } else if exists|k: int| first_gap(sorted, k) {
        let k = choose|k: int| first_gap(sorted, k);
        Some(DaAccumulationError::NewAccountSerialGap((sorted[0].0 + k) as u32, sorted[k].0))
    } else {
        None
    }
}

/// Length of a new snark account's verification key (zero for others).
pub open spec fn vk_len(init: AccountInitView) -> nat {
    match init.snark {
        Some((_, vk)) => vk.len(),
        None => 0,
    }
}

/// The new account entry for the record `rec`, with its initial data from
/// `inits`.
pub open spec fn new_entry(
    limits: DaLimits,
    inits: Seq<(AccountId, AccountInitView)>,
    rec: (u32, AccountId),
) -> Result<(AccountId, AccountInitView), DaAccumulationError> {
    match key_index(inits, rec.1) {
        None => Err(DaAccumulationError::MissingAccountState(rec.1)),
        Some(k) => {
            let init = inits[k].1;
            if init.snark is Some && vk_len(init) > limits.max_vk_bytes {
                Err(
                    DaAccumulationError::VkTooLarge {
                        provided: vk_len(init) as usize,
                        max: limits.max_vk_bytes,
                    },
                )
            } else {
                Ok((rec.1, init))
            }
        },
    }
}

/// The new account entries for the records `recs`, in order, or the first
/// error.
pub open spec fn new_entries(
    limits: DaLimits,
    inits: Seq<(AccountId, AccountInitView)>,
    recs: Seq<(u32, AccountId)>,
) -> Result<Seq<(AccountId, AccountInitView)>, DaAccumulationError>
    decreases recs.len(),
{
    if recs.len() == 0 {
        Ok(Seq::empty())
    } else {
        match new_entries(limits, inits, recs.drop_last()) {
            Err(e) => Err(e),
            Ok(v) => match new_entry(limits, inits, recs.last()) {
                Err(e) => Err(e),
                Ok(x) => Ok(v.push(x)),
            },
        }
    }
}

/// The snark changes of a snark delta.
pub open spec fn snark_diff_of(sn: SnarkDeltaView) -> SnarkDiffView {
    SnarkDiffView {
        seq_no: (sn.base_seq_no, sn.final_seq_no),
        inner_state: if sn.base_proof_state.inner_state_root != sn.final_proof_state.inner_state_root {
            Some(sn.final_proof_state.inner_state_root)
        } else {
            None
        },
        next_inbox_msg_idx: (sn.base_proof_state.next_inbox_msg_idx, sn.final_proof_state.next_inbox_msg_idx),
        inbox: sn.inbox,
        extra_data: sn.last_extra_data,
    }
}

/// The changes of an account delta (for a snark account, its snark state
/// must have been tracked).
pub open spec fn diff_of(d: AccountDeltaView) -> AccountDiffView {
    AccountDiffView {
        balance: (d.base_balance, d.final_balance),
        snark: if d.ty is Snark {
            Some(snark_diff_of(d.snark->0))
        } else {
            None
        },
    }
}

/// The DA counters record only increases: the sequence number by at most
/// `u16::MAX` over the epoch, the next inbox index by any amount.
pub open spec fn counters_fit(sn: SnarkDeltaView) -> bool {
    &&& sn.base_seq_no <= sn.final_seq_no
    &&& sn.final_seq_no - sn.base_seq_no <= u16::MAX
    &&& sn.base_proof_state.next_inbox_msg_idx <= sn.final_proof_state.next_inbox_msg_idx
}

/// The diff of a snark account's delta gives its sequence number and next
/// inbox index before and after, its new inner state root exactly when the
/// root changed, the messages it received and its last extra data; the diff
/// of any delta gives its balance before and after.
pub proof fn lemma_diff_of_delta(d: AccountDeltaView)
    ensures
        diff_of(d).balance == (d.base_balance, d.final_balance),
        d.ty is Empty ==> diff_of(d).snark is None,
        (d.ty is Snark && d.snark is Some) ==> {
            let sn = d.snark->0;
            let x = diff_of(d).snark->0;
            &&& diff_of(d).snark is Some
            &&& x.seq_no == (sn.base_seq_no, sn.final_seq_no)
            &&& x.next_inbox_msg_idx == (sn.base_proof_state.next_inbox_msg_idx, sn.final_proof_state.next_inbox_msg_idx)
            &&& (sn.base_proof_state.inner_state_root == sn.final_proof_state.inner_state_root ==> x.inner_state is None)
            &&& (sn.base_proof_state.inner_state_root != sn.final_proof_state.inner_state_root ==> x.inner_state == Some(
                sn.final_proof_state.inner_state_root,
            ))
            &&& x.inbox == sn.inbox
            &&& x.extra_data == sn.last_extra_data
        },
{
}

/// A diff that changes nothing.
pub open spec fn diff_is_default(v: AccountDiffView) -> bool {
    &&& v.balance.0 == v.balance.1
    &&& match v.snark {
        None => true,
        Some(s) => {
            &&& s.seq_no.0 == s.seq_no.1
            &&& s.inner_state is None
            &&& s.next_inbox_msg_idx.0 == s.next_inbox_msg_idx.1
            &&& s.inbox.len() == 0
            &&& s.extra_data is None
        },
    }
}

/// Some new account record has serial `serial`.
pub open spec fn serial_recorded<X>(s: Seq<(u32, X)>, serial: u32) -> bool {
    exists|k: int| 0 <= k < s.len() && s[k].0 == serial
}

/// One step of [`diff_entries`]: the diffs `v` so far, then the delta of
/// account `p.0`.
pub open spec fn diff_step(
    recs: Seq<(u32, AccountId)>,
    v: Seq<(u32, AccountDiffView)>,
    p: (AccountId, AccountDeltaView),
) -> Result<Seq<(u32, AccountDiffView)>, DaAccumulationError> {
    let (id, d) = p;
    if recorded_new(recs, id) {
        Ok(v)
    } else if d.ty is Snark && d.snark is None {
        Err(DaAccumulationError::MissingSnarkState(id))
    } else if d.ty is Snark && !counters_fit(d.snark->0) {
        Err(DaAccumulationError::CounterOutOfRange(id))
    } else if diff_is_default(diff_of(d)) {
        Ok(v)
    } else if serial_recorded(recs, d.serial) || serial_recorded(v, d.serial) {
        Err(DaAccumulationError::DuplicateAccountSerial(d.serial))
    } else {
        Ok(v.push((d.serial, diff_of(d))))
    }
}

/// The diffs of the accounts touched and not created in the epoch, in the
/// order first touched, leaving out those that changed nothing; or the
/// first error.
pub open spec fn diff_entries(
    recs: Seq<(u32, AccountId)>,
    deltas: Seq<(AccountId, AccountDeltaView)>,
) -> Result<Seq<(u32, AccountDiffView)>, DaAccumulationError>
    decreases deltas.len(),
{
    if deltas.len() == 0 {
        Ok(Seq::empty())
    } else {
        match diff_entries(recs, deltas.drop_last()) {
            Err(e) => Err(e),
            Ok(v) => diff_step(recs, v, deltas.last()),
        }
    }
}

/// The ledger diff of the epoch: the new accounts in serial order, with
/// their initial data from `inits`, and the diffs of the other touched
/// accounts in serial order; or the first error, checking the new account
/// serials first, then the new accounts, then the diffs.
pub open spec fn spec_build_ledger_diff(
    acc: AccumulatorView,
    inits: Seq<(AccountId, AccountInitView)>,
) -> Result<LedgerDiffView, DaAccumulationError> {
    let sorted = sort_by_serial(acc.new_accounts);
    match serial_gap(sorted, acc.expected_first_serial) {
        Some(e) => Err(e),
        None => match new_entries(acc.limits, inits, sorted) {
            Err(e) => Err(e),
            Ok(na) => match diff_entries(acc.new_accounts, acc.deltas) {
                Err(e) => Err(e),
                Ok(ds) => Ok(LedgerDiffView { new_accounts: na, account_diffs: sort_by_serial(ds) }),
            },
        },
    }
}

/// The values of a list of account diff entries.
pub open spec fn diff_views(s: Seq<AccountDiffEntry>) -> Seq<(u32, AccountDiffView)> {
    s.map_values(|e: AccountDiffEntry| (e.account_serial, e.diff@))
}

/// Two keyed sequences with the same keys have the same first positions.
proof fn lemma_key_index_same_keys<V, W>(s: Seq<(AccountId, V)>, t: Seq<(AccountId, W)>, id: AccountId)
    requires
        s.len() == t.len(),
        forall|k: int| 0 <= k < s.len() ==> (#[trigger] s[k]).0 == t[k].0,
    ensures
        key_index(s, id) == key_index(t, id),
{
    if exists|i: int| first_key(s, id, i) {
        let i = choose|i: int| first_key(s, id, i);
        assert forall|k: int| 0 <= k < i implies (#[trigger] t[k]).0 != id by {
            assert(s[k].0 != id);
        }
        assert(first_key(t, id, i));
        lemma_first_key_unique(t, id, i);
    } else if exists|i: int| first_key(t, id, i) {
        let i = choose|i: int| first_key(t, id, i);
        assert forall|k: int| 0 <= k < i implies (#[trigger] s[k]).0 != id by {
            assert(t[k].0 != id);
        }
        assert(first_key(s, id, i));
    }
}

/// Finds the first initial data given for `id`.
fn find_init(inits: &[(AccountId, AccountInit)], id: &AccountId) -> (r: Option<usize>)
    ensures
        r matches Some(i) ==> key_index(init_views(inits@), *id) == Some(i as int),
        r is None ==> key_index(init_views(inits@), *id) is None,
{
    let ghost v = init_views(inits@);
    let mut i: usize = 0;
    while i < inits.len()
        invariant
            v == init_views(inits@),
            i <= inits@.len(),
            forall|k: int| 0 <= k < i ==> (#[trigger] v[k]).0 != *id,
        decreases inits.len() - i,
    {
        if inits[i].0.same(id) {
            proof {
                assert(v[i as int].0 == *id);
                assert(first_key(v, *id, i as int));
                lemma_first_key_unique(v, *id, i as int);
            }
            return Some(i);
        }
        assert(v[i as int].0 == inits@[i as int].0);
        i += 1;
    }
    None
}

/// Where an account with serial `t` goes among the records `s`.
fn record_position(s: &Vec<(u32, AccountId)>, t: u32) -> (r: usize)
    ensures
        r == above_pos(s@, t),
{
    let mut k: usize = 0;
    while k < s.len()
        invariant
            k <= s@.len(),
            forall|m: int| 0 <= m < k ==> (#[trigger] s@[m]).0 <= t,
        decreases s.len() - k,
    {
        if s[k].0 > t {
            proof {
                assert(first_above(s@, t, k as int));
                lemma_first_above_unique(s@, t, k as int);
            }
            return k;
        }
        k += 1;
    }
    proof {
        if exists|i: int| first_above(s@, t, i) {
            let i = choose|i: int| first_above(s@, t, i);
            assert(s@[i].0 <= t);
        }
    }
    k
}

/// Where a diff with serial `t` goes among the diffs `s`.
fn diff_position(s: &Vec<AccountDiffEntry>, t: u32) -> (r: usize)
    ensures
        r == above_pos(diff_views(s@), t),
{
    let ghost v = diff_views(s@);
    let mut k: usize = 0;
    while k < s.len()
        invariant
            v == diff_views(s@),
            k <= s@.len(),
            forall|m: int| 0 <= m < k ==> (#[trigger] v[m]).0 <= t,
        decreases s.len() - k,
    {
        assert(v[k as int].0 == s@[k as int].account_serial);
        if s[k].account_serial > t {
            proof {
                assert(first_above(v, t, k as int));
                lemma_first_above_unique(v, t, k as int);
            }
            return k;
        }
        k += 1;
    }
    proof {
        if exists|i: int| first_above(v, t, i) {
            let i = choose|i: int| first_above(v, t, i);
            assert(v[i].0 <= t);
        }
    }
    k
}

/// Whether some record has account id `id`.
fn record_has_id(recs: &Vec<(u32, AccountId)>, id: &AccountId) -> (r: bool)
    ensures
        r == recorded_new(recs@, *id),
{
    let mut i: usize = 0;
    while i < recs.len()
        invariant
            i <= recs@.len(),
            forall|k: int| 0 <= k < i ==> (#[trigger] recs@[k]).1 != *id,
        decreases recs.len() - i,
    {
        if recs[i].1.same(id) {
            return true;
        }
        i += 1;
    }
    false
}

/// Whether some record has serial `serial`.
fn record_has_serial(recs: &Vec<(u32, AccountId)>, serial: u32) -> (r: bool)
    ensures
        r == serial_recorded(recs@, serial),
{
    let mut i: usize = 0;
    while i < recs.len()
        invariant
            i <= recs@.len(),
            forall|k: int| 0 <= k < i ==> (#[trigger] recs@[k]).0 != serial,
        decreases recs.len() - i,
    {
        if recs[i].0 == serial {
            return true;
        }
        i += 1;
    }
    false
}

/// Whether some diff has serial `serial`.
fn diff_has_serial(ds: &Vec<AccountDiffEntry>, serial: u32) -> (r: bool)
    ensures
        r == serial_recorded(diff_views(ds@), serial),
{
    let ghost v = diff_views(ds@);
    let mut i: usize = 0;
    while i < ds.len()
        invariant
            v == diff_views(ds@),
            i <= ds@.len(),
            forall|k: int| 0 <= k < i ==> (#[trigger] v[k]).0 != serial,
        decreases ds.len() - i,
    {
        assert(v[i as int].0 == ds@[i as int].account_serial);
        if ds[i].account_serial == serial {
            return true;
        }
        i += 1;
    }
    false
}

/// The changes recorded in a delta.
fn diff_from_delta(d: &AccountDelta) -> (r: AccountDiff)
    requires
        d.ty is Snark ==> d.snark is Some,
    ensures
        r@ == diff_of(d@),
{
    let snark = match d.ty {
        AccountTypeId::Snark => match &d.snark {
            Some(sn) => {
                let same_root = bytes32_eq(
                    &sn.base_proof_state.inner_state_root,
                    &sn.final_proof_state.inner_state_root,
                );
                Some(
                    SnarkAccountDiff {
                        seq_no: (sn.base_seq_no, sn.final_seq_no),
                        inner_state: if same_root {
                            None
                        } else {
                            Some(sn.final_proof_state.inner_state_root)
                        },
                        next_inbox_msg_idx: (
                            sn.base_proof_state.next_inbox_msg_idx,
                            sn.final_proof_state.next_inbox_msg_idx,
                        ),
                        inbox: copy_msgs(&sn.inbox),
                        extra_data: match &sn.last_extra_data {
                            Some(x) => Some(copy_bytes(x)),
                            None => None,
                        },
                    },
                )
            },
            None => None,
        },
        AccountTypeId::Empty => None,
    };
    AccountDiff { balance: (d.base_balance, d.final_balance), snark }
}

/// Whether a diff changes nothing.
fn diff_unchanged(v: &AccountDiff) -> (r: bool)
    ensures
        r == diff_is_default(v@),
{
    if v.balance.0 != v.balance.1 {
        return false;
    }
    match &v.snark {
        None => true,
        Some(sn) => sn.seq_no.0 == sn.seq_no.1 && sn.inner_state.is_none() && sn.next_inbox_msg_idx.0
            == sn.next_inbox_msg_idx.1 && sn.inbox.len() == 0 && sn.extra_data.is_none(),
    }
}

/// The records in serial order (see [`sort_by_serial`]).
fn sort_records(recs: &Vec<(u32, AccountId)>) -> (r: Vec<(u32, AccountId)>)
    ensures
        r@ == sort_by_serial(recs@),
{
    let mut out: Vec<(u32, AccountId)> = Vec::new();
    let mut i: usize = 0;
    while i < recs.len()
        invariant
            i <= recs@.len(),
            out@ == sort_by_serial(recs@.take(i as int)),
        decreases recs.len() - i,
    {
        proof {
            assert(recs@.take(i + 1).drop_last() =~= recs@.take(i as int));
            assert(recs@.take(i + 1).last() == recs@[i as int]);
            lemma_sort_len(recs@.take(i as int));
        }
        let rec = recs[i];
        let pos = record_position(&out, rec.0);
        proof {
            lemma_above_pos_bound(out@, rec.0);
        }
        out.insert(pos, rec);
        i += 1;
    }
    assert(recs@.take(recs@.len() as int) =~= recs@);
    out
}

/// Sorting keeps the length.
proof fn lemma_sort_len<X>(s: Seq<(u32, X)>)
    ensures
        sort_by_serial(s).len() == s.len(),
    decreases s.len(),
{
    if s.len() > 0 {
        lemma_sort_len(s.drop_last());
        lemma_above_pos_bound(sort_by_serial(s.drop_last()), s.last().0);
    }
}

proof fn lemma_above_pos_bound<X>(s: Seq<(u32, X)>, t: u32)
    ensures
        0 <= above_pos(s, t) <= s.len(),
{
    if exists|i: int| first_above(s, t, i) {
        let i = choose|i: int| first_above(s, t, i);
    }
}

/// The diffs in serial order (see [`sort_by_serial`]).
fn sort_diffs(ds: Vec<AccountDiffEntry>) -> (r: Vec<AccountDiffEntry>)
    ensures
        diff_views(r@) == sort_by_serial(diff_views(ds@)),
{
    let ghost all = diff_views(ds@);
    let mut rest = ds;
    let mut out: Vec<AccountDiffEntry> = Vec::new();
    let mut i: usize = 0;
    let n = rest.len();
    while rest.len() > 0
        invariant
            n == all.len(),
            i <= n,
            rest@.len() == n - i,
            diff_views(rest@) == all.skip(i as int),
            diff_views(out@) == sort_by_serial(all.take(i as int)),
        decreases rest.len(),
    {
        proof {
            assert(diff_views(rest@)[0] == all[i as int]);
            assert(all.take(i + 1).drop_last() =~= all.take(i as int));
            assert(all.take(i + 1).last() == all[i as int]);
            lemma_sort_len(all.take(i as int));
        }
        let ghost rest_before = rest@;
        let d = rest.remove(0);
        proof {
            assert(rest@ =~= rest_before.subrange(1, rest_before.len() as int));
            assert forall|k: int| 0 <= k < rest@.len() implies diff_views(rest@)[k] == all.skip(i + 1)[k] by {
                assert(rest@[k] == rest_before[k + 1]);
                assert(diff_views(rest_before)[k + 1] == all.skip(i as int)[k + 1]);
            }
            assert(diff_views(rest@) =~= all.skip(i + 1));
        }
        let pos = diff_position(&out, d.account_serial);
        proof {
            lemma_above_pos_bound(diff_views(out@), d.account_serial);
        }
        let ghost before = diff_views(out@);
        out.insert(pos, d);
        proof {
            assert(diff_views(out@) =~= before.insert(pos as int, (d.account_serial, d.diff@)));
        }
        i += 1;
    }
    proof {
        assert(all.take(i as int) =~= all);
    }
    out
}

/// There is only one first gap.
proof fn lemma_first_gap_unique(sorted: Seq<(u32, AccountId)>, k: int)
    requires
        first_gap(sorted, k),
    ensures
        (choose|j: int| first_gap(sorted, j)) == k,
{
    let j = choose|j: int| first_gap(sorted, j);
    if j < k {
        assert(sorted[j].0 == sorted[0].0 + j);
    } else if k < j {
        assert(sorted[k].0 == sorted[0].0 + k);
    }
}

/// Checks the new account serials, in serial order (see [`serial_gap`]).
fn check_serials(sorted: &Vec<(u32, AccountId)>, expected: Option<u32>) -> (r: Option<DaAccumulationError>)
    ensures
        r == serial_gap(sorted@, expected),
{
    if sorted.len() == 0 {
        return None;
    }
    let first = sorted[0].0;
    match expected {
        Some(e) => {
            if first != e {
                return Some(DaAccumulationError::NewAccountSerialGap(e, first));
            }
        },
        None => {},
    }
    let mut k: usize = 1;
    let mut next: u64 = first as u64 + 1;
    while k < sorted.len()
        invariant
            1 <= k <= sorted@.len(),
            first == sorted@[0].0,
            !(expected is Some && first != expected->0),
            next == first + k,
            next <= u32::MAX + 1,
            forall|m: int| 0 < m < k ==> (#[trigger] sorted@[m]).0 == first + m,
        decreases sorted.len() - k,
    {
        if sorted[k].0 as u64 != next {
            proof {
                assert(first_gap(sorted@, k as int));
                lemma_first_gap_unique(sorted@, k as int);
            }
            let e = #[verifier::truncate] (next as u32);
            assert(e == ((sorted@[0].0 + k) as u32));
            return Some(DaAccumulationError::NewAccountSerialGap(e, sorted[k].0));
        }
        k += 1;
        next += 1;
    }
    proof {
        if exists|j: int| first_gap(sorted@, j) {
            let j = choose|j: int| first_gap(sorted@, j);
            assert(sorted@[j].0 == first + j);
        }
    }
    None
}

impl EpochDaAccumulator {
    /// An accumulator for a new epoch: nothing recorded.
    pub fn new(limits: DaLimits) -> (r: EpochDaAccumulator)
        ensures
            r@.limits == limits,
            r@.expected_first_serial is None,
            r@.new_accounts == Seq::<(u32, AccountId)>::empty(),
            r@.deltas == Seq::<(AccountId, AccountDeltaView)>::empty(),
            r@.wf(),
    {
        let r = EpochDaAccumulator {
            limits,
            expected_first_serial: None,
            new_account_records: Vec::new(),
            account_deltas: Vec::new(),
        };
        assert(r@.deltas =~= Seq::<(AccountId, AccountDeltaView)>::empty());
        r
    }

    /// Starts tracking account `id` from its state `st` before the epoch
    /// touched it; an account already tracked keeps its delta.
    pub fn track_account(&mut self, id: AccountId, st: &AccountStateModel)
        requires
            old(self)@.wf(),
        ensures
            final(self)@.wf(),
            final(self)@.limits == old(self)@.limits,
            final(self)@.expected_first_serial == old(self)@.expected_first_serial,
            final(self)@.new_accounts == old(self)@.new_accounts,
            final(self)@.deltas == if key_index(old(self)@.deltas, id) is Some {
                old(self)@.deltas
            } else {
                old(self)@.deltas.push((id, fresh_delta(*st)))
            },
    {
        proof {
            lemma_key_index_views(self.account_deltas@, id);
        }
        match find_key(&self.account_deltas, &id) {
            Some(_) => {},
            None => {
                let snark = match st.snark {
                    Some(sn) => Some(
                        SnarkDelta {
                            base_seq_no: sn.seq_no,
                            final_seq_no: sn.seq_no,
                            base_proof_state: sn.proof_state,
                            final_proof_state: sn.proof_state,
                            inbox: Vec::new(),
                            last_extra_data: None,
                        },
                    ),
                    None => None,
                };
                let d = AccountDelta {
                    serial: st.serial,
                    base_balance: st.balance,
                    final_balance: st.balance,
                    ty: st.ty,
                    snark,
                };
                let ghost old_views = delta_views(self.account_deltas@);
                proof {
                    lemma_key_absent(old_views, id);
                }
                self.account_deltas.push((id, d));
                proof {
                    assert(d@.snark == fresh_delta(*st).snark) by {
                        if st.snark is Some {
                            assert(msg_views(Seq::<DaMessage>::empty()) =~= Seq::<DaMessageView>::empty());
                        }
                    }
                    assert(delta_views(self.account_deltas@) =~= old_views.push((id, fresh_delta(*st))));
                }
            },
        }
    }

    /// Records that account `id` was created with serial `serial`;
    /// `expected_first_serial` is the first serial the epoch may create, and
    /// is kept from the first call on.
    pub fn record_new_account(&mut self, expected_first_serial: u32, serial: u32, id: AccountId) -> (r: Result<
        (),
        DaAccumulationError,
    >)
        ensures
            final(self)@.expected_first_serial == (match old(self)@.expected_first_serial {
                Some(e) => Some(e),
                None => Some(expected_first_serial),
            }),
            final(self)@.limits == old(self)@.limits,
            final(self)@.deltas == old(self)@.deltas,
            recorded_new(old(self)@.new_accounts, id) ==> r == Err::<(), DaAccumulationError>(
                DaAccumulationError::DuplicateNewAccountId(id),
            ) && final(self)@.new_accounts == old(self)@.new_accounts,
            !recorded_new(old(self)@.new_accounts, id) ==> r is Ok && final(self)@.new_accounts == old(
                self,
            )@.new_accounts.push((serial, id)),
    {
        let mut seen = false;
        let mut i: usize = 0;
        while i < self.new_account_records.len()
            invariant
                i <= self.new_account_records@.len(),
                seen ==> recorded_new(self.new_account_records@, id),
                !seen ==> forall|k: int| 0 <= k < i ==> (#[trigger] self.new_account_records@[k]).1 != id,
            decreases self.new_account_records.len() - i,
        {
            if self.new_account_records[i].1.same(&id) {
                seen = true;
            }
            i += 1;
        }
        if self.expected_first_serial.is_none() {
            self.expected_first_serial = Some(expected_first_serial);
        }
        if seen {
            return Err(DaAccumulationError::DuplicateNewAccountId(id));
        }
        self.new_account_records.push((serial, id));
        Ok(())
    }

    /// Records the update of account `id` during a block: its state after
    /// the block is `post`, the block wrote the inbox messages `inbox` to
    /// it (`source_exists[k]`: the source of the `k`-th is an account of the
    /// ledger), and `extra_data` is the extra data of its last snark update
    /// in the block, if that carried any. On an error nothing is recorded.
    #[verifier::loop_isolation(false)]
    pub fn record_account_update(
        &mut self,
        id: AccountId,
        post: &AccountStateModel,
        inbox: &[InboxMessage],
        source_exists: &[bool],
        extra_data: Option<Vec<u8>>,
    ) -> (r: Result<(), DaAccumulationError>)
        requires
            old(self)@.wf(),
            inbox@.len() == source_exists@.len(),
        ensures
            final(self)@.wf(),
            r == record_result(old(self)@, id, *post, inbox_views(inbox@), source_exists@),
            r is Err ==> final(self)@ == old(self)@,
            r is Ok ==> final(self)@ == record_update(
                old(self)@,
                id,
                *post,
                inbox_views(inbox@),
                opt_bytes_view(extra_data),
            ),
            r is Ok ==> ({
                let i = key_index(old(self)@.deltas, id)->0;
                let d0 = old(self)@.deltas[i].1;
                let d1 = final(self)@.deltas[i].1;
                &&& final(self)@.deltas.len() == old(self)@.deltas.len()
                &&& final(self)@.deltas[i].0 == id
                &&& d1.final_balance == post.balance
                &&& d1.base_balance == d0.base_balance
                &&& d0.snark is Some ==> {
                    &&& d1.snark is Some
                    &&& d1.snark->0.inbox.len() == d0.snark->0.inbox.len() + inbox@.len()
                    &&& forall|k: int| 0 <= k < inbox@.len() ==> #[trigger] d1.snark->0.inbox[d0.snark->0.inbox.len() + k] == inbox@[k].entry@
                    &&& extra_data is Some ==> d1.snark->0.last_extra_data == Some(extra_data->0@)
                    &&& extra_data is None ==> d1.snark->0.last_extra_data == d0.snark->0.last_extra_data
                }
            }),
    {
        let ghost iv = inbox_views(inbox@);
        let ghost ex = source_exists@;
        proof {
            lemma_key_index_views(self.account_deltas@, id);
        }
        let idx = match find_key(&self.account_deltas, &id) {
            None => {
                return Err(DaAccumulationError::MissingPreState(id));
            },
            Some(i) => i,
        };
        let ghost dv = self.account_deltas@[idx as int].1@;
        assert(delta_views(self.account_deltas@)[idx as int].1 == dv);
        let ty = self.account_deltas[idx].1.ty;
        if !(post.ty == ty) {
            return Err(DaAccumulationError::AccountTypeChanged { account_id: id, expected: ty, actual: post.ty });
        }
        let has_snark = self.account_deltas[idx].1.snark.is_some();
        let held = match &self.account_deltas[idx].1.snark {
            Some(sn) => sn.inbox.len(),
            None => 0,
        };
        assert(held == held_messages(dv));
        let limits = self.limits;
        let mut count: usize = held;
        let mut i: usize = 0;
        assert(iv.skip(0) =~= iv);
        assert(ex.skip(0) =~= ex);
        while i < inbox.len()
            invariant
                iv == inbox_views(inbox@),
                ex == source_exists@,
                inbox@.len() == ex.len(),
                i <= inbox@.len(),
                count == held + i,
                inbox_error(limits, id, has_snark, held as nat, iv, ex) == inbox_error(
                    limits,
                    id,
                    has_snark,
                    count as nat,
                    iv.skip(i as int),
                    ex.skip(i as int),
                ),
            decreases inbox.len() - i,
        {
            proof {
                assert(iv.skip(i as int)[0] == iv[i as int]);
                assert(ex.skip(i as int)[0] == ex[i as int]);
                assert(iv.skip(i as int).drop_first() =~= iv.skip(i + 1));
                assert(ex.skip(i as int).drop_first() =~= ex.skip(i + 1));
            }
            let m = &inbox[i];
            if !m.account_id.same(&id) {
                return Err(DaAccumulationError::InboxAccountMismatch { expected: id, actual: m.account_id });
            }
            if !has_snark {
                return Err(DaAccumulationError::MissingSnarkState(id));
            }
            if m.entry.data.len() > limits.max_msg_payload_bytes {
                return Err(
                    DaAccumulationError::MessagePayloadTooLarge {
                        provided: m.entry.data.len(),
                        max: limits.max_msg_payload_bytes,
                    },
                );
            }
            if !source_exists[i] {
                return Err(DaAccumulationError::MessageSourceMissing(m.entry.source));
            }
            if count >= limits.max_inbox_entries {
                return Err(
                    DaAccumulationError::InboxBufferFull { account_id: id, max: limits.max_inbox_entries },
                );
            }
            count += 1;
            i += 1;
        }
        proof {
            assert(iv.skip(i as int).len() == 0);
        }
        let d = &self.account_deltas[idx].1;
        let new_snark = match &d.snark {
            Some(sn) => {
                let mut msgs = copy_msgs(&sn.inbox);
                let ghost base = msg_views(sn.inbox@);
                let mut j: usize = 0;
                while j < inbox.len()
                    invariant
                        iv == inbox_views(inbox@),
                        j <= inbox@.len(),
                        msg_views(msgs@) == base + iv.take(j as int).map_values(|m: (AccountId, DaMessageView)| m.1),
                    decreases inbox.len() - j,
                {
                    let ghost before = msgs@;
                    let m = inbox[j].entry.duplicate();
                    msgs.push(m);
                    proof {
                        assert(msgs@ == before.push(m));
                        assert(iv[j as int].1 == m@);
                        assert(msg_views(msgs@) =~= msg_views(before).push(m@));
                        assert(iv.take(j + 1).map_values(|m: (AccountId, DaMessageView)| m.1) =~= iv.take(
                            j as int,
                        ).map_values(|m: (AccountId, DaMessageView)| m.1).push(m@));
                    }
                    j += 1;
                }
                proof {
                    assert(iv.take(inbox@.len() as int) =~= iv);
                }
                let (final_seq_no, final_proof_state) = match post.snark {
                    Some(p) => (p.seq_no, p.proof_state),
                    None => (sn.final_seq_no, sn.final_proof_state),
                };
                let last_extra_data = match extra_data {
                    Some(x) => Some(x),
                    None => match &sn.last_extra_data {
                        Some(x) => Some(copy_bytes(x)),
                        None => None,
                    },
                };
                Some(
                    SnarkDelta {
                        base_seq_no: sn.base_seq_no,
                        final_seq_no,
                        base_proof_state: sn.base_proof_state,
                        final_proof_state,
                        inbox: msgs,
                        last_extra_data,
                    },
                )
            },
            None => None,
        };
        let nd = AccountDelta {
            serial: d.serial,
            base_balance: d.base_balance,
            final_balance: post.balance,
            ty: d.ty,
            snark: new_snark,
        };
        let ghost old_views = delta_views(self.account_deltas@);
        proof {
            assert(nd@ == updated_delta(dv, *post, iv, opt_bytes_view(extra_data)));
            lemma_update_records(dv, *post, iv, opt_bytes_view(extra_data));
        }
        self.account_deltas.set(idx, (id, nd));
        proof {
            assert(delta_views(self.account_deltas@) =~= old_views.update(idx as int, (id, nd@)));
            assert(old_views[idx as int].0 == id);
        }
        Ok(())
    }
}


/// The values of a list of new account entries.
pub open spec fn new_entry_views(s: Seq<NewAccountEntry>) -> Seq<(AccountId, AccountInitView)> {
    s.map_values(|e: NewAccountEntry| (e.account_id, e.init@))
}

/// An error on a prefix of the records is the error on all of them.
proof fn lemma_new_entries_err(
    limits: DaLimits,
    inits: Seq<(AccountId, AccountInitView)>,
    s: Seq<(u32, AccountId)>,
    j: int,
)
    requires
        0 <= j <= s.len(),
        new_entries(limits, inits, s.take(j)) is Err,
    ensures
        new_entries(limits, inits, s) == new_entries(limits, inits, s.take(j)),
    decreases s.len() - j,
{
    if j < s.len() {
        assert(s.take(j + 1).drop_last() =~= s.take(j));
        lemma_new_entries_err(limits, inits, s, j + 1);
    } else {
        assert(s.take(j) =~= s);
    }
}

/// An error on a prefix of the deltas is the error on all of them.
proof fn lemma_diff_entries_err(recs: Seq<(u32, AccountId)>, s: Seq<(AccountId, AccountDeltaView)>, j: int)
    requires
        0 <= j <= s.len(),
        diff_entries(recs, s.take(j)) is Err,
    ensures
        diff_entries(recs, s) == diff_entries(recs, s.take(j)),
    decreases s.len() - j,
{
    if j < s.len() {
        assert(s.take(j + 1).drop_last() =~= s.take(j));
        lemma_diff_entries_err(recs, s, j + 1);
    } else {
        assert(s.take(j) =~= s);
    }
}

impl EpochDaAccumulator {
    /// Builds the ledger diff of the epoch (see [`spec_build_ledger_diff`]),
    /// reading the initial data of each new account from `new_inits`.
    #[verifier::loop_isolation(false)]
    pub fn build_ledger_diff(&self, new_inits: &[(AccountId, AccountInit)]) -> (r: Result<
        LedgerDiff,
        DaAccumulationError,
    >)
        ensures
            r matches Ok(l) ==> spec_build_ledger_diff(self@, init_views(new_inits@)) == Ok::<
                LedgerDiffView,
                DaAccumulationError,
            >(l@),
            r matches Err(e) ==> spec_build_ledger_diff(self@, init_views(new_inits@)) == Err::<
                LedgerDiffView,
                DaAccumulationError,
            >(e),
    {
        let ghost acc = self@;
        let ghost iv = init_views(new_inits@);
        let limits = self.limits;
        let sorted = sort_records(&self.new_account_records);
        match check_serials(&sorted, self.expected_first_serial) {
            Some(e) => {
                return Err(e);
            },
            None => {},
        }
        let mut na: Vec<NewAccountEntry> = Vec::new();
        let mut i: usize = 0;
        assert(sorted@.take(0) =~= Seq::<(u32, AccountId)>::empty());
        assert(new_entry_views(na@) =~= Seq::<(AccountId, AccountInitView)>::empty());
        while i < sorted.len()
            invariant
                i <= sorted@.len(),
                new_entries(limits, iv, sorted@.take(i as int)) == Ok::<
                    Seq<(AccountId, AccountInitView)>,
                    DaAccumulationError,
                >(new_entry_views(na@)),
            decreases sorted.len() - i,
        {
            proof {
                assert(sorted@.take(i + 1).drop_last() =~= sorted@.take(i as int));
                assert(sorted@.take(i + 1).last() == sorted@[i as int]);
            }
            let rec = sorted[i];
            let id = rec.1;
            match find_init(new_inits, &id) {
                None => {
                    proof {
                        lemma_new_entries_err(limits, iv, sorted@, i + 1);
                    }
                    return Err(DaAccumulationError::MissingAccountState(id));
                },
                Some(k) => {
                    let init = &new_inits[k].1;
                    assert(iv[k as int].1 == init@);
                    let too_large = match &init.snark {
                        Some(sn) => sn.update_vk.len() > limits.max_vk_bytes,
                        None => false,
                    };
                    if too_large {
                        let provided = match &init.snark {
                            Some(sn) => sn.update_vk.len(),
                            None => 0,
                        };
                        proof {
                            lemma_new_entries_err(limits, iv, sorted@, i + 1);
                        }
                        return Err(DaAccumulationError::VkTooLarge { provided, max: limits.max_vk_bytes });
                    }
                    let ghost before = na@;
                    let e = NewAccountEntry { account_id: id, init: init.duplicate() };
                    na.push(e);
                    proof {
                        assert(new_entry_views(na@) =~= new_entry_views(before).push((id, init@)));
                    }
                },
            }
            i += 1;
        }
        assert(sorted@.take(sorted@.len() as int) =~= sorted@);
        let mut ds: Vec<AccountDiffEntry> = Vec::new();
        let mut j: usize = 0;
        assert(acc.deltas.take(0) =~= Seq::<(AccountId, AccountDeltaView)>::empty());
        assert(diff_views(ds@) =~= Seq::<(u32, AccountDiffView)>::empty());
        while j < self.account_deltas.len()
            invariant
                j <= self.account_deltas@.len(),
                acc.deltas.len() == self.account_deltas@.len(),
                diff_entries(acc.new_accounts, acc.deltas.take(j as int)) == Ok::<
                    Seq<(u32, AccountDiffView)>,
                    DaAccumulationError,
                >(diff_views(ds@)),
            decreases self.account_deltas.len() - j,
        {
            proof {
                assert(acc.deltas.take(j + 1).drop_last() =~= acc.deltas.take(j as int));
                assert(acc.deltas.take(j + 1).last() == acc.deltas[j as int]);
            }
            let id = self.account_deltas[j].0;
            let d = &self.account_deltas[j].1;
            assert(acc.deltas[j as int] == (id, d@));
            if !record_has_id(&self.new_account_records, &id) {
                let missing = match d.ty {
                    AccountTypeId::Snark => d.snark.is_none(),
                    AccountTypeId::Empty => false,
                };
                if missing {
                    proof {
                        lemma_diff_entries_err(acc.new_accounts, acc.deltas, j + 1);
                    }
                    return Err(DaAccumulationError::MissingSnarkState(id));
                }
                let out_of_range = match (d.ty, &d.snark) {
                    (AccountTypeId::Snark, Some(sn)) => !(sn.base_seq_no <= sn.final_seq_no && sn.final_seq_no
                        - sn.base_seq_no <= 0xffff && sn.base_proof_state.next_inbox_msg_idx
                        <= sn.final_proof_state.next_inbox_msg_idx),
                    _ => false,
                };
                if out_of_range {
                    proof {
                        lemma_diff_entries_err(acc.new_accounts, acc.deltas, j + 1);
                    }
                    return Err(DaAccumulationError::CounterOutOfRange(id));
                }
                let diff = diff_from_delta(d);
                if !diff_unchanged(&diff) {
                    if record_has_serial(&self.new_account_records, d.serial) || diff_has_serial(&ds, d.serial) {
                        proof {
                            lemma_diff_entries_err(acc.new_accounts, acc.deltas, j + 1);
                        }
                        return Err(DaAccumulationError::DuplicateAccountSerial(d.serial));
                    }
                    let ghost before = ds@;
                    let ghost dv = diff@;
                    ds.push(AccountDiffEntry { account_serial: d.serial, diff });
                    proof {
                        assert(diff_views(ds@) =~= diff_views(before).push((d.serial, dv)));
                    }
                }
            }
            j += 1;
        }
        assert(acc.deltas.take(acc.deltas.len() as int) =~= acc.deltas);
        let account_diffs = sort_diffs(ds);
        Ok(LedgerDiff { new_accounts: na, account_diffs })
    }
}


/// Bound on the encoded size of the inbox messages `ms`: per message, its
/// source (32 bytes), epoch (4), value (8), a length prefix (2) and data.
pub open spec fn msgs_size(ms: Seq<DaMessageView>) -> nat
    decreases ms.len(),
{
    if ms.len() == 0 {
        0
    } else {
        msgs_size(ms.drop_last()) + 46 + ms.last().data.len()
    }
}

/// Bound on the encoded size of the inbox of a delta: a 2-byte count and
/// the messages, nothing when it has none.
pub open spec fn delta_inbox_size(d: AccountDeltaView) -> nat {
    match d.snark {
        Some(sn) => if sn.inbox.len() == 0 {
            0
        } else {
            2 + msgs_size(sn.inbox)
        },
        None => 0,
    }
}

/// Sum of [`delta_inbox_size`] over the deltas.
pub open spec fn deltas_inbox_size(ds: Seq<(AccountId, AccountDeltaView)>) -> nat
    decreases ds.len(),
{
    if ds.len() == 0 {
        0
    } else {
        deltas_inbox_size(ds.drop_last()) + delta_inbox_size(ds.last().1)
    }
}

/// Bytes allowed per new account: its id (32), balance (8), type (1), and
/// for a snark account its state root (32), the key's length prefix (2) and
/// the key itself, at most `max_vk_bytes`.
pub open spec fn new_account_size(limits: DaLimits) -> nat {
    (75 + limits.max_vk_bytes) as nat
}

/// Upper bound on the encoded size of the epoch's DA payload: the global
/// diff (3 bytes), the new accounts list (2-byte length and
/// [`new_account_size`] per account), the account diffs list (2-byte length
/// and 61 bytes per touched account) and the inbox messages.
pub open spec fn estimated_size(acc: AccumulatorView) -> nat {
    3 + (2 + acc.new_accounts.len() * new_account_size(acc.limits)) + (2 + acc.deltas.len() * 61)
        + deltas_inbox_size(acc.deltas)
}

proof fn lemma_msgs_size_prefix(ms: Seq<DaMessageView>, i: int)
    requires
        0 <= i <= ms.len(),
    ensures
        msgs_size(ms.take(i)) <= msgs_size(ms),
    decreases ms.len() - i,
{
    if i < ms.len() {
        lemma_msgs_size_prefix(ms, i + 1);
        assert(ms.take(i + 1).drop_last() =~= ms.take(i));
    } else {
        assert(ms.take(i) =~= ms);
    }
}

proof fn lemma_deltas_inbox_size_prefix(ds: Seq<(AccountId, AccountDeltaView)>, i: int)
    requires
        0 <= i <= ds.len(),
    ensures
        deltas_inbox_size(ds.take(i)) <= deltas_inbox_size(ds),
    decreases ds.len() - i,
{
    if i < ds.len() {
        lemma_deltas_inbox_size_prefix(ds, i + 1);
        assert(ds.take(i + 1).drop_last() =~= ds.take(i));
    } else {
        assert(ds.take(i) =~= ds);
    }
}

impl EpochDaAccumulator {
    /// Upper bound on the encoded size of the epoch's DA payload, cheaper
    /// than building and encoding it (see [`estimated_size`]).
    pub fn estimated_encoded_size(&self) -> (r: usize)
        requires
            estimated_size(self@) <= usize::MAX,
        ensures
            r == estimated_size(self@),
    {
        let ghost acc = self@;
        let n_new = self.new_account_records.len();
        let n_deltas = self.account_deltas.len();
        let ghost per_new = new_account_size(acc.limits);
        assert(n_new * per_new <= estimated_size(acc));
        assert(n_deltas * 61 <= estimated_size(acc));
        let new_bytes: usize = if n_new == 0 {
            0
        } else {
            assert(per_new <= n_new * per_new) by (nonlinear_arith)
                requires
                    n_new >= 1,
            ;
            let per: usize = 75 + self.limits.max_vk_bytes;
            n_new * per
        };
        assert(new_bytes == n_new * per_new);
        let mut size: usize = 3 + (2 + new_bytes) + (2 + n_deltas * 61);
        let mut i: usize = 0;
        assert(acc.deltas.take(0) =~= Seq::<(AccountId, AccountDeltaView)>::empty());
        while i < n_deltas
            invariant
                acc == self@,
                n_deltas == acc.deltas.len(),
                n_new == acc.new_accounts.len(),
                i <= n_deltas,
                estimated_size(acc) <= usize::MAX,
                new_bytes == n_new * new_account_size(acc.limits),
                size == 3 + (2 + new_bytes) + (2 + n_deltas * 61) + deltas_inbox_size(acc.deltas.take(i as int)),
            decreases n_deltas - i,
        {
            proof {
                assert(acc.deltas.take(i + 1).drop_last() =~= acc.deltas.take(i as int));
                assert(acc.deltas.take(i + 1).last() == acc.deltas[i as int]);
                lemma_deltas_inbox_size_prefix(acc.deltas, i + 1);
            }
            let d = &self.account_deltas[i].1;
            assert(acc.deltas[i as int].1 == d@);
            match &d.snark {
                Some(sn) => {
                    if sn.inbox.len() > 0 {
                        let ghost ms = msg_views(sn.inbox@);
                        assert(delta_inbox_size(d@) == 2 + msgs_size(ms));
                        assert(deltas_inbox_size(acc.deltas.take(i + 1)) == deltas_inbox_size(acc.deltas.take(i as int))
                            + 2 + msgs_size(ms));
                        assert(size + 2 + msgs_size(ms) <= estimated_size(acc));
                        let base = size;
                        size = size + 2;
                        let mut k: usize = 0;
                        assert(ms.take(0) =~= Seq::<DaMessageView>::empty());
                        while k < sn.inbox.len()
                            invariant
                                ms == msg_views(sn.inbox@),
                                k <= ms.len(),
                                base + 2 + msgs_size(ms) <= usize::MAX,
                                size == base + 2 + msgs_size(ms.take(k as int)),
                            decreases sn.inbox.len() - k,
                        {
                            proof {
                                assert(ms.take(k + 1).drop_last() =~= ms.take(k as int));
                                assert(ms.take(k + 1).last() == ms[k as int]);
                                lemma_msgs_size_prefix(ms, k + 1);
                            }
                            size = size + 46 + sn.inbox[k].data.len();
                            k += 1;
                        }
                        assert(ms.take(ms.len() as int) =~= ms);
                    }
                },
                None => {},
            }
            i += 1;
        }
        assert(acc.deltas.take(n_deltas as int) =~= acc.deltas);
        size
    }
}


/// `s` is in serial order.
pub open spec fn serial_sorted<X>(s: Seq<(u32, X)>) -> bool {
    forall|i: int, j: int| 0 <= i <= j < s.len() ==> s[i].0 <= s[j].0
}

proof fn lemma_first_above_exists<X>(r: Seq<(u32, X)>, t: u32, j: int)
    requires
        0 <= j < r.len(),
        r[j].0 > t,
    ensures
        exists|i: int| first_above(r, t, i),
    decreases j,
{
    if forall|k: int| 0 <= k < j ==> (#[trigger] r[k]).0 <= t {
        assert(first_above(r, t, j));
    } else {
        let k = choose|k: int| 0 <= k < j && !((#[trigger] r[k]).0 <= t);
        lemma_first_above_exists(r, t, k);
    }
}

proof fn lemma_insert_serial_sorted<X>(r: Seq<(u32, X)>, x: (u32, X))
    requires
        serial_sorted(r),
    ensures
        serial_sorted(r.insert(above_pos(r, x.0), x)),
{
    let p = above_pos(r, x.0);
    if exists|i: int| first_above(r, x.0, i) {
        let c = choose|i: int| first_above(r, x.0, i);
        assert(first_above(r, x.0, c));
    } else {
        assert forall|i: int| 0 <= i < r.len() implies r[i].0 <= x.0 by {
            if r[i].0 > x.0 {
                lemma_first_above_exists(r, x.0, i);
            }
        }
    }
    let q = r.insert(p, x);
    assert forall|i: int, j: int| 0 <= i <= j < q.len() implies q[i].0 <= q[j].0 by {
        if i < p {
            assert(q[i] == r[i]);
            assert(r[i].0 <= x.0);
            if j < p {
                assert(q[j] == r[j]);
            } else if j > p {
                assert(q[j] == r[j - 1]);
            }
        } else if i == p {
            if j > p {
                assert(q[j] == r[j - 1]);
                assert(r[p].0 > x.0);
                assert(r[p].0 <= r[j - 1].0);
            }
        } else {
            assert(q[i] == r[i - 1]);
            assert(q[j] == r[j - 1]);
        }
    }
}

/// Ordering by serial gives a sequence in serial order.
pub proof fn lemma_sort_by_serial_sorted<X>(s: Seq<(u32, X)>)
    ensures
        serial_sorted(sort_by_serial(s)),
        sort_by_serial(s).len() == s.len(),
    decreases s.len(),
{
    if s.len() > 0 {
        lemma_sort_by_serial_sorted(s.drop_last());
        lemma_above_pos_bound(sort_by_serial(s.drop_last()), s.last().0);
        lemma_insert_serial_sorted(sort_by_serial(s.drop_last()), s.last());
    }
}

/// The new accounts of a ledger diff that builds are those recorded, in
/// serial order, their serials counting up one by one from the expected
/// first serial (when one was given) without a gap.
pub proof fn lemma_built_new_accounts_contiguous(acc: AccumulatorView, inits: Seq<(AccountId, AccountInitView)>)
    requires
        spec_build_ledger_diff(acc, inits) is Ok,
    ensures
        ({
            let sorted = sort_by_serial(acc.new_accounts);
            let na = spec_build_ledger_diff(acc, inits)->Ok_0.new_accounts;
            &&& na.len() == acc.new_accounts.len()
            &&& forall|k: int| 0 <= k < na.len() ==> na[k].0 == #[trigger] sorted[k].1
            &&& forall|k: int| 0 <= k < sorted.len() ==> #[trigger] sorted[k].0 == sorted[0].0 + k
            &&& (sorted.len() > 0 && acc.expected_first_serial is Some) ==> sorted[0].0
                == acc.expected_first_serial->0
        }),
{
    let sorted = sort_by_serial(acc.new_accounts);
    lemma_sort_by_serial_sorted(acc.new_accounts);
    lemma_new_entries_shape(acc.limits, inits, sorted);
    assert forall|k: int| 0 <= k < sorted.len() implies #[trigger] sorted[k].0 == sorted[0].0 + k by {
        lemma_no_gap_upto(sorted, k);
    }
}

/// Without a first gap, every serial counts up from the first.
proof fn lemma_no_gap_upto(sorted: Seq<(u32, AccountId)>, k: int)
    requires
        0 <= k < sorted.len(),
        !(exists|j: int| first_gap(sorted, j)),
    ensures
        sorted[k].0 == sorted[0].0 + k,
    decreases k,
{
    if k > 0 {
        assert forall|m: int| 0 < m < k implies (#[trigger] sorted[m]).0 == sorted[0].0 + m by {
            lemma_no_gap_upto(sorted, m);
        }
        if sorted[k].0 != sorted[0].0 + k {
            assert(first_gap(sorted, k));
        }
    }
}

/// The entries built for records are one per record, for its account.
proof fn lemma_new_entries_shape(
    limits: DaLimits,
    inits: Seq<(AccountId, AccountInitView)>,
    recs: Seq<(u32, AccountId)>,
)
    requires
        new_entries(limits, inits, recs) is Ok,
    ensures
        new_entries(limits, inits, recs)->Ok_0.len() == recs.len(),
        forall|k: int| 0 <= k < recs.len() ==> (#[trigger] new_entries(limits, inits, recs)->Ok_0[k]).0 == recs[k].1,
    decreases recs.len(),
{
    if recs.len() > 0 {
        lemma_new_entries_shape(limits, inits, recs.drop_last());
        let v = new_entries(limits, inits, recs.drop_last())->Ok_0;
        assert forall|k: int| 0 <= k < recs.len() implies (#[trigger] new_entries(limits, inits, recs)->Ok_0[k]).0
            == recs[k].1 by {
            if k < recs.len() - 1 {
                assert(new_entries(limits, inits, recs)->Ok_0[k] == v[k]);
                assert(recs.drop_last()[k] == recs[k]);
            }
        }
    }
}

/// The account diffs of a ledger diff that builds are in serial order.
pub proof fn lemma_built_diffs_sorted(acc: AccumulatorView, inits: Seq<(AccountId, AccountInitView)>)
    requires
        spec_build_ledger_diff(acc, inits) is Ok,
    ensures
        serial_sorted(spec_build_ledger_diff(acc, inits)->Ok_0.account_diffs),
{
    lemma_sort_by_serial_sorted(diff_entries(acc.new_accounts, acc.deltas)->Ok_0);
}


/// Why a ledger diff is refused when it is applied.
#[derive(Clone, Copy, Debug, PartialEq, Eq, Structural)]
pub enum InvalidLedgerDiff {
    /// Two new accounts share an id.
    DuplicateNewAccountId,
    /// The serials the new accounts would take run past `u32::MAX`.
    SerialRangeOverflow,
    /// An account diff names a serial not yet assigned before the diff.
    DiffSerialOutOfRange,
    /// Account diff serials are not strictly increasing.
    DiffSerialsNotIncreasing,
}

/// Two new accounts of `na` share an id.
pub open spec fn has_duplicate_new_id(na: Seq<(AccountId, AccountInitView)>) -> bool {
    exists|i: int, j: int| 0 <= i < j < na.len() && na[i].0 == na[j].0
}

/// The `k`-th account diff is acceptable: its serial was assigned before
/// the diff (below `pre`) and is above the previous one's.
pub open spec fn diff_serial_ok(ds: Seq<(u32, AccountDiffView)>, pre: u32, k: int) -> bool {
    &&& ds[k].0 < pre
    &&& (k == 0 || ds[k].0 > ds[k - 1].0)
}

/// `k` is the first account diff that is not acceptable.
pub open spec fn first_bad_diff(ds: Seq<(u32, AccountDiffView)>, pre: u32, k: int) -> bool {
    &&& 0 <= k < ds.len()
    &&& !diff_serial_ok(ds, pre, k)
    &&& forall|m: int| 0 <= m < k ==> #[trigger] diff_serial_ok(ds, pre, m)
}

/// Why the ledger diff `l`, applied to a state whose next account serial is
/// `pre`, is refused, if it is: duplicate new account ids, new serials
/// past `u32::MAX`, or account diffs that are not for existing accounts in
/// strictly increasing serial order (the first such diff decides which).
pub open spec fn ledger_entries_error(pre: u32, l: LedgerDiffView) -> Option<InvalidLedgerDiff> {
    let n = l.new_accounts.len() as u32;
    if has_duplicate_new_id(l.new_accounts) {
        Some(InvalidLedgerDiff::DuplicateNewAccountId)
    } else if n > 0 && pre + (n - 1) > u32::MAX {
        Some(InvalidLedgerDiff::SerialRangeOverflow)
    } else if exists|k: int| first_bad_diff(l.account_diffs, pre, k) {
        let k = choose|k: int| first_bad_diff(l.account_diffs, pre, k);
        if l.account_diffs[k].0 >= pre {
            Some(InvalidLedgerDiff::DiffSerialOutOfRange)
        } else {
            Some(InvalidLedgerDiff::DiffSerialsNotIncreasing)
        }
    } else {
        None
    }
}

proof fn lemma_first_bad_unique(ds: Seq<(u32, AccountDiffView)>, pre: u32, k: int)
    requires
        first_bad_diff(ds, pre, k),
    ensures
        (choose|j: int| first_bad_diff(ds, pre, j)) == k,
{
    let j = choose|j: int| first_bad_diff(ds, pre, j);
    if j < k {
        assert(diff_serial_ok(ds, pre, j));
    } else if k < j {
        assert(diff_serial_ok(ds, pre, k));
    }
}

/// Checks the ledger diff `l` before it is applied to a state whose next
/// account serial is `pre_state_next_serial` (see [`ledger_entries_error`]).
pub fn validate_ledger_entries(pre_state_next_serial: u32, l: &LedgerDiff) -> (r: Result<(), InvalidLedgerDiff>)
    ensures
        r matches Err(e) ==> ledger_entries_error(pre_state_next_serial, l@) == Some(e),
        r is Ok ==> ledger_entries_error(pre_state_next_serial, l@) is None,
{
    let ghost lv = l@;
    let na = &l.new_accounts;
    let mut j: usize = 0;
    while j < na.len()
        invariant
            lv == l@,
            na@ == l.new_accounts@,
            j <= na@.len(),
            forall|a: int, b: int| 0 <= a < b < j ==> lv.new_accounts[a].0 != lv.new_accounts[b].0,
        decreases na.len() - j,
    {
        let mut i: usize = 0;
        while i < j
            invariant
                lv == l@,
                na@ == l.new_accounts@,
                i <= j < na@.len(),
                forall|a: int| 0 <= a < i ==> lv.new_accounts[a].0 != lv.new_accounts[j as int].0,
            decreases j - i,
        {
            assert(lv.new_accounts[i as int].0 == na@[i as int].account_id);
            assert(lv.new_accounts[j as int].0 == na@[j as int].account_id);
            if na[i].account_id.same(&na[j].account_id) {
                return Err(InvalidLedgerDiff::DuplicateNewAccountId);
            }
            i += 1;
        }
        j += 1;
    }
    let n = #[verifier::truncate] (na.len() as u32);
    if n > 0 && pre_state_next_serial as u64 + (n - 1) as u64 > u32::MAX as u64 {
        return Err(InvalidLedgerDiff::SerialRangeOverflow);
    }
    let ds = &l.account_diffs;
    let mut k: usize = 0;
    while k < ds.len()
        invariant
            lv == l@,
            ds@ == l.account_diffs@,
            k <= ds@.len(),
            !has_duplicate_new_id(lv.new_accounts),
            !(n > 0 && pre_state_next_serial + (n - 1) > u32::MAX),
            n == lv.new_accounts.len() as u32,
            forall|m: int| 0 <= m < k ==> #[trigger] diff_serial_ok(lv.account_diffs, pre_state_next_serial, m),
        decreases ds.len() - k,
    {
        assert(lv.account_diffs[k as int].0 == ds@[k as int].account_serial);
        let serial = ds[k].account_serial;
        if serial >= pre_state_next_serial {
            proof {
                assert(first_bad_diff(lv.account_diffs, pre_state_next_serial, k as int));
                lemma_first_bad_unique(lv.account_diffs, pre_state_next_serial, k as int);
            }
            return Err(InvalidLedgerDiff::DiffSerialOutOfRange);
        }
        if k > 0 {
            assert(lv.account_diffs[k - 1].0 == ds@[k - 1].account_serial);
            if serial <= ds[k - 1].account_serial {
                proof {
                    assert(first_bad_diff(lv.account_diffs, pre_state_next_serial, k as int));
                    lemma_first_bad_unique(lv.account_diffs, pre_state_next_serial, k as int);
                }
                return Err(InvalidLedgerDiff::DiffSerialsNotIncreasing);
            }
        }
        k += 1;
    }
    proof {
        if exists|b: int| first_bad_diff(lv.account_diffs, pre_state_next_serial, b) {
            let b = choose|b: int| first_bad_diff(lv.account_diffs, pre_state_next_serial, b);
            assert(diff_serial_ok(lv.account_diffs, pre_state_next_serial, b));
        }
    }
    Ok(())
}


/// Each account diff the epoch yields is the diff of a touched account that
/// was not created in the epoch, changes something, and has a serial no new
/// account has; no two diffs share a serial.
pub proof fn lemma_diff_entries_sound(recs: Seq<(u32, AccountId)>, deltas: Seq<(AccountId, AccountDeltaView)>)
    requires
        diff_entries(recs, deltas) is Ok,
    ensures
        ({
            let v = diff_entries(recs, deltas)->Ok_0;
            &&& forall|k: int|
                0 <= k < v.len() ==> !diff_is_default(#[trigger] v[k].1) && !serial_recorded(recs, v[k].0)
                    && exists|j: int|
                    0 <= j < deltas.len() && !recorded_new(recs, deltas[j].0) && v[k] == (
                        deltas[j].1.serial,
                        diff_of(deltas[j].1),
                    )
            &&& forall|a: int, b: int| 0 <= a < b < v.len() ==> v[a].0 != v[b].0
        }),
    decreases deltas.len(),
{
    if deltas.len() > 0 {
        let prev = deltas.drop_last();
        lemma_diff_entries_sound(recs, prev);
        let v0 = diff_entries(recs, prev)->Ok_0;
        let v = diff_entries(recs, deltas)->Ok_0;
        assert forall|k: int| 0 <= k < v.len() implies !diff_is_default(#[trigger] v[k].1) && !serial_recorded(
            recs,
            v[k].0,
        ) && exists|j: int|
            0 <= j < deltas.len() && !recorded_new(recs, deltas[j].0) && v[k] == (
                deltas[j].1.serial,
                diff_of(deltas[j].1),
            ) by {
            let p = deltas.last();
            assert(v == diff_step(recs, v0, p)->Ok_0);
            if k < v0.len() {
                assert(v[k] == v0[k]);
                assert(!diff_is_default(v0[k].1));
                let j = choose|j: int|
                    0 <= j < prev.len() && !recorded_new(recs, prev[j].0) && v0[k] == (
                        prev[j].1.serial,
                        diff_of(prev[j].1),
                    );
                assert(deltas[j] == prev[j]);
            } else {
                assert(deltas[deltas.len() - 1] == deltas.last());
            }
        }
        assert forall|a: int, b: int| 0 <= a < b < v.len() implies v[a].0 != v[b].0 by {
            assert(v == diff_step(recs, v0, deltas.last())->Ok_0);
            if b >= v0.len() {
                assert(v[a] == v0[a]);
                if v[a].0 == v[b].0 {
                    assert(serial_recorded(v0, v[b].0));
                }
            } else {
                assert(v[a] == v0[a]);
                assert(v[b] == v0[b]);
            }
        }
    }
}

} // verus!
