//! What the mempool reads of the chain state at its tip: the current slot and
//! the accounts, with the next sequence number of each snark account.

use vstd::prelude::*;

use crate::ids::AccountId;

verus! {

/// The kind of an account, as far as transaction validation cares.
#[derive(Clone, Copy, Debug, PartialEq, Eq)]
pub enum AccountKind {
    /// An account without snark state.
    Empty,
    /// A snark account that expects its next update to carry `seq_no`.
    Snark { seq_no: u64 },
}

/// An account of the ledger.
#[derive(Clone, Copy, Debug, PartialEq, Eq)]
pub struct AccountState {
    pub id: AccountId,
    pub kind: AccountKind,
}

/// The kind of the first account of `s` with id `id`.
pub open spec fn find_account(s: Seq<AccountState>, id: AccountId) -> Option<AccountKind>
    decreases s.len(),
{
    if s.len() == 0 {
        None
    } else if s[0].id == id {
        Some(s[0].kind)
    } else {
        find_account(s.drop_first(), id)
    }
}

proof fn lemma_find_account_at(s: Seq<AccountState>, id: AccountId, i: int)
    requires
        0 <= i < s.len(),
        s[i].id == id,
        forall|j: int| 0 <= j < i ==> s[j].id != id,
    ensures
        find_account(s, id) == Some(s[i].kind),
    decreases i,
{
    if i > 0 {
        let t = s.drop_first();
        assert forall|j: int| 0 <= j < i - 1 implies t[j].id != id by {
            assert(t[j] == s[j + 1]);
        }
        lemma_find_account_at(t, id, i - 1);
    }
}

proof fn lemma_find_account_none(s: Seq<AccountState>, id: AccountId)
    requires
        forall|j: int| 0 <= j < s.len() ==> s[j].id != id,
    ensures
        find_account(s, id) is None,
    decreases s.len(),
{
    if s.len() > 0 {
        let t = s.drop_first();
        assert forall|j: int| 0 <= j < t.len() implies t[j].id != id by {
            assert(t[j] == s[j + 1]);
        }
        lemma_find_account_none(t, id);
    }
}

/// The chain state at a tip, as the mempool validates against it.
#[derive(Clone, Debug)]
pub struct ChainState {
    /// The slot of the tip.
    pub cur_slot: u64,
    /// The accounts of the ledger.
    pub accounts: Vec<AccountState>,
}

impl ChainState {
    pub open spec fn account(&self, id: AccountId) -> Option<AccountKind> {
        find_account(self.accounts@, id)
    }

    pub fn new(cur_slot: u64, accounts: Vec<AccountState>) -> (r: ChainState)
        ensures
            r.cur_slot == cur_slot,
            r.accounts@ == accounts@,
    {
        ChainState { cur_slot, accounts }
    }

    pub fn cur_slot(&self) -> (r: u64)
        ensures
            r == self.cur_slot,
    {
        self.cur_slot
    }

    /// The state of account `id`, if it exists.
    pub fn get_account_state(&self, id: &AccountId) -> (r: Option<AccountKind>)
        ensures
            r == self.account(*id),
    {
        let mut i: usize = 0;
        while i < self.accounts.len()
            invariant
                i <= self.accounts.len(),
                forall|j: int| 0 <= j < i ==> self.accounts@[j].id != *id,
            decreases self.accounts.len() - i,
        {
            if self.accounts[i].id.same(id) {
                proof {
                    lemma_find_account_at(self.accounts@, *id, i as int);
                }
                return Some(self.accounts[i].kind);
            }
            i += 1;
        }
        proof {
            lemma_find_account_none(self.accounts@, *id);
        }
        None
    }

    /// A copy with the same value.
    pub fn duplicate(&self) -> (r: ChainState)
        ensures
            r.cur_slot == self.cur_slot,
            r.accounts@ == self.accounts@,
    {
        let mut accounts: Vec<AccountState> = Vec::new();
        let mut i: usize = 0;
        while i < self.accounts.len()
            invariant
                i <= self.accounts.len(),
                accounts@ == self.accounts@.take(i as int),
            decreases self.accounts.len() - i,
        {
            accounts.push(self.accounts[i]);
            assert(self.accounts@.take(i + 1) =~= self.accounts@.take(i as int).push(
                self.accounts@[i as int],
            ));
            i += 1;
        }
        assert(self.accounts@.take(self.accounts.len() as int) =~= self.accounts@);
        ChainState { cur_slot: self.cur_slot, accounts }
    }
}

} // verus!
