//! The staking side of the protocol: a fungible-balance ledger together with
//! the per-account stake entries that grant voting power.
//!
//! The contract's own account holds custody of everything staked plus the
//! still-unclaimed free pool; `stake` and `unstake` move amounts between an
//! account's balance and that custody balance, and they are the only
//! operations that touch a stake entry. An entry is removed, never zeroed,
//! when fully unstaked: presence of an entry is the sole signal of voting
//! power, and every present entry is positive.

use vstd::prelude::*;

verus! {

use crate::Error;
use crate::ledger::AccountBook;
use crate::ledger::AccountEntry;
use crate::ledger::amount_in;
use crate::ledger::checked_total;
use crate::ledger::distinct_keys;
use crate::ledger::entries_map;
use crate::ledger::entries_total;
use crate::ledger::lemma_map_correspondence;

/// What stored parts must satisfy to stand for a well-formed token ledger:
/// duplicate-free entries, a representable grand total, a custody balance
/// covering the free pool plus everything staked, and only positive stakes.
pub open spec fn parts_wf(
    balances: Seq<AccountEntry>,
    stakes: Seq<AccountEntry>,
    free_tokens: u128,
    account_id: Seq<char>,
) -> bool {
    &&& distinct_keys(balances)
    &&& distinct_keys(stakes)
    &&& entries_total(balances) <= u128::MAX
    &&& free_tokens + entries_total(stakes) <= amount_in(entries_map(balances), account_id)
    &&& forall|i: int| 0 <= i < stakes.len() ==> (#[trigger] stakes[i]).amount > 0
}

/// The token contract: fungible balances, stake entries, the free pool and
/// the contract's own (custody) account identifier.
pub struct Contract {
    token: AccountBook,
    voice_power: AccountBook,
    free_tokens: u128,
    account_id: String,
}

impl Contract {
    /// The fungible balances, account to amount.
    pub closed spec fn balances(&self) -> Map<Seq<char>, u128> {
        self.token@
    }

    /// The stake entries, account to staked amount.
    pub closed spec fn stakes(&self) -> Map<Seq<char>, u128> {
        self.voice_power@
    }

    /// The amount not yet handed out to any account.
    pub closed spec fn free(&self) -> u128 {
        self.free_tokens
    }

    /// The contract's own account, which holds the free pool and everything
    /// staked.
    pub closed spec fn custody(&self) -> Seq<char> {
        self.account_id@
    }

    /// The ledger invariant: balances and stakes are well-formed maps, the
    /// grand total of balances fits the machine word, the custody balance
    /// covers the free pool plus everything staked, and every stake entry is
    /// positive.
    pub closed spec fn wf(&self) -> bool {
        &&& self.token.wf()
        &&& self.voice_power.wf()
        &&& self.token.total() <= u128::MAX
        &&& self.free_tokens + self.voice_power.total() <= amount_in(
            self.token@,
            self.account_id@,
        )
        &&& forall|k: Seq<char>|
            self.voice_power@.dom().contains(k) ==> self.voice_power@[k] > 0
    }

    /// Law: an account has voting power exactly when it has something at
    /// stake; a present stake entry is never zero.
    pub proof fn lemma_power_iff_positive_stake(&self, account: Seq<char>)
        requires
            self.wf(),
        ensures
            self.stakes().dom().contains(account) <==> amount_in(self.stakes(), account) > 0,
    {
    }

    /// A fresh ledger: the whole supply sits free in the custody account and
    /// nothing is staked.
    pub fn new(total_supply: u128, contract_account: String) -> (r: Contract)
        ensures
            r.wf(),
            r.balances() == Map::<Seq<char>, u128>::empty().insert(
                contract_account@,
                total_supply,
            ),
            r.stakes() == Map::<Seq<char>, u128>::empty(),
            r.free() == total_supply,
            r.custody() == contract_account@,
    {
        let mut token = AccountBook::new();
        token.set(&contract_account, total_supply);
        Contract {
            token,
            voice_power: AccountBook::new(),
            free_tokens: total_supply,
            account_id: contract_account,
        }
    }

    /// The balance entries behind [`Contract::balances`].
    pub closed spec fn balance_entry_seq(&self) -> Seq<AccountEntry> {
        self.token.entry_seq()
    }

    /// The stake entries behind [`Contract::stakes`].
    pub closed spec fn stake_entry_seq(&self) -> Seq<AccountEntry> {
        self.voice_power.entry_seq()
    }

    /// Rebuild the ledger from stored parts; answers `None` exactly when they
    /// do not satisfy the ledger invariant.
    pub fn from_parts(
        balances: Vec<AccountEntry>,
        stakes: Vec<AccountEntry>,
        free_tokens: u128,
        account_id: String,
    ) -> (r: Option<Contract>)
        ensures
            r is Some <==> parts_wf(balances@, stakes@, free_tokens, account_id@),
            r matches Some(c) ==> c.wf() && c.balances() == entries_map(balances@) && c.stakes()
                == entries_map(stakes@) && c.free() == free_tokens && c.custody() == account_id@,
    {
        let ghost ss = stakes@;
        let mut i: usize = 0;
        while i < stakes.len()
            invariant
                stakes@ == ss,
                i <= ss.len(),
                forall|j: int| 0 <= j < i ==> (#[trigger] ss[j]).amount > 0,
            decreases ss.len() - i,
        {
            if stakes[i].amount == 0 {
                return None;
            }
            i += 1;
        }
        if checked_total(&balances).is_none() {
            return None;
        }
        let stotal = match checked_total(&stakes) {
            Some(t) => t,
            None => {
                return None;
            },
        };
        let token = match AccountBook::from_entries(balances) {
            Some(b) => b,
            None => {
                return None;
            },
        };
        let voice_power = match AccountBook::from_entries(stakes) {
            Some(b) => b,
            None => {
                return None;
            },
        };
        let custody_balance = match token.get(&account_id) {
            Some(v) => v,
            None => 0,
        };
        let need = match free_tokens.checked_add(stotal) {
            Some(v) => v,
            None => {
                return None;
            },
        };
        if need > custody_balance {
            return None;
        }
        proof {
            lemma_map_correspondence(ss);
        }
        Some(Contract { token, voice_power, free_tokens, account_id })
    }

    /// A copy of the balance entries, for the environment to store.
    pub fn balance_entries(&self) -> (r: Vec<AccountEntry>)
        ensures
            r@ == self.balance_entry_seq(),
    {
        self.token.entries()
    }

    /// A copy of the stake entries, for the environment to store.
    pub fn stake_entries(&self) -> (r: Vec<AccountEntry>)
        ensures
            r@ == self.stake_entry_seq(),
    {
        self.voice_power.entries()
    }

    /// The free pool, for the environment to store.
    pub fn free_balance(&self) -> (r: u128)
        ensures
            r == self.free(),
    {
        self.free_tokens
    }

    /// The ledger's own account, for the environment to store.
    pub fn custody_account(&self) -> (r: String)
        ensures
            r@ == self.custody(),
    {
        self.account_id.clone()
    }

    /// The account's fungible balance, zero when it has none.
    pub fn balance_of(&self, account: &String) -> (r: u128)
        requires
            self.wf(),
        ensures
            r == amount_in(self.balances(), account@),
    {
        match self.token.get(account) {
            Some(v) => v,
            None => 0,
        }
    }

    /// Whether the account currently has voting power, that is, a stake
    /// entry. A pure query with no side effect.
    pub fn get_power(&self, user: String) -> (r: bool)
        requires
            self.wf(),
        ensures
            r == self.stakes().dom().contains(user@),
    {
        self.voice_power.contains_key(&user)
    }

    /// Hand `amount` from the free pool to the caller's balance; fails,
    /// changing nothing, when the pool holds less. The caller is a user
    /// account, never the ledger's own: a self-transfer is refused up front.
    pub fn give_tokens_to(&mut self, caller: &String, amount: u128) -> (r: Result<(), Error>)
        requires
            old(self).wf(),
            caller@ != old(self).custody(),
        ensures
            final(self).wf(),
            final(self).custody() == old(self).custody(),
            final(self).stakes() == old(self).stakes(),
            r is Ok <==> amount <= old(self).free(),
            r is Ok ==> final(self).free() == old(self).free() - amount
                && final(self).balances() == old(self).balances().insert(
                old(self).custody(),
                (amount_in(old(self).balances(), old(self).custody()) - amount) as u128,
            ).insert(caller@, (amount_in(old(self).balances(), caller@) + amount) as u128),
            r is Err ==> r == Err::<(), Error>(Error::InsufficientBalance) && final(self).free()
                == old(self).free() && final(self).balances() == old(self).balances(),
    {
        if amount > self.free_tokens {
            return Err(Error::InsufficientBalance);
        }
        proof {
            self.voice_power.lemma_total_nonneg();
        }
        let r = self.token.transfer(&self.account_id, caller, amount);
        match r {
            Ok(()) => {
                self.free_tokens = self.free_tokens - amount;
                Ok(())
            },
            Err(e) => {
                proof {
                    assert(false);
                }
                Err(e)
            },
        }
    }

    /// Move `amount` from the caller's balance into custody and raise the
    /// caller's stake entry by it (creating the entry when absent and the
    /// amount is positive); fails with `InsufficientBalance`, changing
    /// nothing, when the caller's balance holds less. The caller is a user
    /// account, never the ledger's own: a self-transfer is refused up front.
    pub fn stake(&mut self, caller: &String, amount: u128) -> (r: Result<(), Error>)
        requires
            old(self).wf(),
            caller@ != old(self).custody(),
        ensures
            final(self).wf(),
            final(self).custody() == old(self).custody(),
            final(self).free() == old(self).free(),
            r is Ok <==> amount <= amount_in(old(self).balances(), caller@),
            r is Ok ==> final(self).balances() == old(self).balances().insert(
                caller@,
                (amount_in(old(self).balances(), caller@) - amount) as u128,
            ).insert(
                old(self).custody(),
                (amount_in(old(self).balances(), old(self).custody()) + amount) as u128,
            ),
            r is Ok ==> final(self).stakes() == if amount == 0 {
                old(self).stakes()
            } else {
                old(self).stakes().insert(
                    caller@,
                    (amount_in(old(self).stakes(), caller@) + amount) as u128,
                )
            },
            r is Err ==> r == Err::<(), Error>(Error::InsufficientBalance) && final(self).balances()
                == old(self).balances() && final(self).stakes() == old(self).stakes(),
    {
        let bal = self.balance_of(caller);
        if amount > bal {
            return Err(Error::InsufficientBalance);
        }
        proof {
            // The custody balance plus the incoming amount stays within the
            // grand total, so nothing below truncates.
            let ob = old(self).balances();
            let cust = old(self).custody();
            if ob.dom().contains(caller@) && ob.dom().contains(cust) {
                old(self).token.lemma_pair_le_total(caller@, cust);
            } else if ob.dom().contains(cust) {
                old(self).token.lemma_value_le_total(cust);
            }
            old(self).voice_power.lemma_total_nonneg();
        }
        let r = self.token.transfer(caller, &self.account_id, amount);
        match r {
            Err(e) => {
                proof {
                    assert(false);
                }
                Err(e)
            },
            Ok(()) => {
                if amount > 0 {
                    let prev = match self.voice_power.get(caller) {
                        Some(v) => v,
                        None => 0,
                    };
                    proof {
                        if self.voice_power@.dom().contains(caller@) {
                            self.voice_power.lemma_value_le_total(caller@);
                        } else {
                            self.voice_power.lemma_total_nonneg();
                        }
                    }
                    self.voice_power.set(caller, prev + amount);
                }
                Ok(())
            },
        }
    }

    /// Return `amount` from custody to the caller's balance and lower the
    /// caller's stake entry by it, removing the entry entirely when the whole
    /// stake leaves. Fails with `NoStake` when the caller has no entry, with
    /// `ExceedsStake` when the entry holds less than `amount`; nothing changes
    /// on failure. The caller is a user account, never the ledger's own: a
    /// self-transfer is refused up front.
    pub fn unstake(&mut self, caller: &String, amount: u128) -> (r: Result<(), Error>)
        requires
            old(self).wf(),
            caller@ != old(self).custody(),
        ensures
            final(self).wf(),
            final(self).custody() == old(self).custody(),
            final(self).free() == old(self).free(),
            !old(self).stakes().dom().contains(caller@) ==> r == Err::<(), Error>(Error::NoStake)
                && final(self).balances() == old(self).balances() && final(self).stakes()
                == old(self).stakes(),
            old(self).stakes().dom().contains(caller@) && amount > old(self).stakes()[caller@]
                ==> r == Err::<(), Error>(Error::ExceedsStake) && final(self).balances()
                == old(self).balances() && final(self).stakes() == old(self).stakes(),
            old(self).stakes().dom().contains(caller@) && amount <= old(self).stakes()[caller@]
                ==> r is Ok && final(self).balances() == old(self).balances().insert(
                old(self).custody(),
                (amount_in(old(self).balances(), old(self).custody()) - amount) as u128,
            ).insert(caller@, (amount_in(old(self).balances(), caller@) + amount) as u128)
                && final(self).stakes() == if amount < old(self).stakes()[caller@] {
                old(self).stakes().insert(
                    caller@,
                    (old(self).stakes()[caller@] - amount) as u128,
                )
            } else {
                old(self).stakes().remove(caller@)
            },
            r is Ok && amount == amount_in(old(self).stakes(), caller@)
                ==> !final(self).stakes().dom().contains(caller@),
    {
        let prev = match self.voice_power.get(caller) {
            Some(v) => v,
            None => {
                return Err(Error::NoStake);
            },
        };
        if amount > prev {
            return Err(Error::ExceedsStake);
        }
        proof {
            self.voice_power.lemma_value_le_total(caller@);
            // The caller's balance plus the returning amount stays within the
            // grand total, so nothing below truncates.
            let ob = old(self).balances();
            let cust = old(self).custody();
            if ob.dom().contains(caller@) && ob.dom().contains(cust) {
                old(self).token.lemma_pair_le_total(cust, caller@);
            } else if ob.dom().contains(caller@) {
                old(self).token.lemma_value_le_total(caller@);
            }
        }
        let r = self.token.transfer(&self.account_id, caller, amount);
        match r {
            Err(e) => {
                proof {
                    assert(false);
                }
                Err(e)
            },
            Ok(()) => {
                if amount < prev {
                    self.voice_power.set(caller, prev - amount);
                } else {
                    self.voice_power.remove(caller);
                }
                Ok(())
            },
        }
    }
}

} // verus!
