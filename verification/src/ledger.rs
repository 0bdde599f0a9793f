//! A ledger mapping account identifiers to unsigned token amounts.
//!
//! Both per-account fungible balances and per-account stake entries are
//! instances of this structure. It is kept as a vector of entries with
//! pairwise-distinct accounts; its mathematical model is the finite map from
//! the account's character sequence to the stored amount, together with the
//! total of all stored amounts, which transfers preserve.

use vstd::prelude::*;

verus! {

use crate::Error;

/// One account's entry: the account identifier and the amount it holds.
pub struct AccountEntry {
    pub account: String,
    pub amount: u128,
}

/// A ledger from account identifiers to amounts.
pub struct AccountBook {
    entries: Vec<AccountEntry>,
}

/// The amount a map holds under a key, with absence read as zero.
pub open spec fn amount_in(m: Map<Seq<char>, u128>, k: Seq<char>) -> int {
    if m.dom().contains(k) {
        m[k] as int
    } else {
        0
    }
}

/// No two entries name the same account.
pub open spec fn distinct_keys(s: Seq<AccountEntry>) -> bool {
    forall|i: int, j: int| 0 <= i < j < s.len() ==> s[i].account@ != s[j].account@
}

/// The map a sequence of entries stands for, a later entry shadowing an
/// earlier one under the same account (with distinct keys, none does).
pub open spec fn entries_map(s: Seq<AccountEntry>) -> Map<Seq<char>, u128>
    decreases s.len(),
{
    if s.len() == 0 {
        Map::empty()
    } else {
        entries_map(s.drop_last()).insert(s.last().account@, s.last().amount)
    }
}

/// The sum of the amounts of a sequence of entries.
pub open spec fn entries_total(s: Seq<AccountEntry>) -> int
    decreases s.len(),
{
    if s.len() == 0 {
        0int
    } else {
        entries_total(s.drop_last()) + s.last().amount
    }
}

/// Each entry of a duplicate-free sequence is present in its map with its own
/// amount, and the map's domain holds nothing else.
pub proof fn lemma_map_correspondence(s: Seq<AccountEntry>)
    requires
        distinct_keys(s),
    ensures
        forall|i: int|
            0 <= i < s.len() ==> entries_map(s).dom().contains(#[trigger] s[i].account@)
                && entries_map(s)[s[i].account@] == s[i].amount,
        forall|k: Seq<char>|
            entries_map(s).dom().contains(k) ==> exists|i: int|
                0 <= i < s.len() && #[trigger] s[i].account@ == k,
    decreases s.len(),
{
    if s.len() > 0 {
        let rest = s.drop_last();
        lemma_map_correspondence(rest);
        assert forall|i: int|
            0 <= i < s.len() implies entries_map(s).dom().contains(#[trigger] s[i].account@)
            && entries_map(s)[s[i].account@] == s[i].amount by {
            if i < s.len() - 1 {
                assert(s[i].account@ != s.last().account@);
                assert(rest[i] == s[i]);
            }
        }
        assert forall|k: Seq<char>| entries_map(s).dom().contains(k) implies exists|i: int|
            0 <= i < s.len() && #[trigger] s[i].account@ == k by {
            if k == s.last().account@ {
                assert(s[s.len() - 1].account@ == k);
            } else {
                assert(entries_map(rest).dom().contains(k));
                let i = choose|i: int| 0 <= i < rest.len() && #[trigger] rest[i].account@ == k;
                assert(rest[i] == s[i]);
                assert(s[i].account@ == k);
            }
        }
    }
}

proof fn lemma_total_nonneg(s: Seq<AccountEntry>)
    ensures
        0 <= entries_total(s),
    decreases s.len(),
{
    if s.len() > 0 {
        lemma_total_nonneg(s.drop_last());
    }
}

proof fn lemma_total_update(s: Seq<AccountEntry>, i: int, e: AccountEntry)
    requires
        0 <= i < s.len(),
    ensures
        entries_total(s.update(i, e)) == entries_total(s) - s[i].amount + e.amount,
    decreases s.len(),
{
    let u = s.update(i, e);
    if i == s.len() - 1 {
        assert(u.drop_last() =~= s.drop_last());
    } else {
        assert(u.drop_last() =~= s.drop_last().update(i, e));
        lemma_total_update(s.drop_last(), i, e);
    }
}

proof fn lemma_total_remove(s: Seq<AccountEntry>, i: int)
    requires
        0 <= i < s.len(),
    ensures
        entries_total(s.remove(i)) == entries_total(s) - s[i].amount,
    decreases s.len(),
{
    let r = s.remove(i);
    if i == s.len() - 1 {
        assert(r =~= s.drop_last());
    } else {
        assert(r.drop_last() =~= s.drop_last().remove(i));
        assert(r.last() == s.last());
        lemma_total_remove(s.drop_last(), i);
    }
}

proof fn lemma_entry_le_total(s: Seq<AccountEntry>, i: int)
    requires
        0 <= i < s.len(),
    ensures
        s[i].amount <= entries_total(s),
{
    lemma_total_remove(s, i);
    lemma_total_nonneg(s.remove(i));
}

proof fn lemma_pair_le_total(s: Seq<AccountEntry>, i: int, j: int)
    requires
        0 <= i < s.len(),
        0 <= j < s.len(),
        i != j,
    ensures
        s[i].amount + s[j].amount <= entries_total(s),
{
    lemma_total_remove(s, j);
    let r = s.remove(j);
    if i < j {
        assert(r[i] == s[i]);
        lemma_entry_le_total(r, i);
    } else {
        assert(r[i - 1] == s[i]);
        lemma_entry_le_total(r, i - 1);
    }
}

proof fn lemma_map_update(s: Seq<AccountEntry>, i: int, e: AccountEntry)
    requires
        distinct_keys(s),
        0 <= i < s.len(),
        e.account@ == s[i].account@,
    ensures
        entries_map(s.update(i, e)) == entries_map(s).insert(e.account@, e.amount),
    decreases s.len(),
{
    let u = s.update(i, e);
    if i == s.len() - 1 {
        assert(u.drop_last() =~= s.drop_last());
        assert(entries_map(u) =~= entries_map(s).insert(e.account@, e.amount));
    } else {
        assert(u.drop_last() =~= s.drop_last().update(i, e));
        lemma_map_update(s.drop_last(), i, e);
        assert(u.last() == s.last());
        assert(s[i].account@ != s.last().account@);
        assert(entries_map(u) =~= entries_map(s).insert(e.account@, e.amount));
    }
}

proof fn lemma_map_remove(s: Seq<AccountEntry>, i: int)
    requires
        distinct_keys(s),
        0 <= i < s.len(),
    ensures
        entries_map(s.remove(i)) == entries_map(s).remove(s[i].account@),
    decreases s.len(),
{
    let r = s.remove(i);
    let k = s[i].account@;
    if i == s.len() - 1 {
        assert(r =~= s.drop_last());
        lemma_map_correspondence(s.drop_last());
        assert(!entries_map(s.drop_last()).dom().contains(k));
        assert(entries_map(r) =~= entries_map(s).remove(k));
    } else {
        assert(r.drop_last() =~= s.drop_last().remove(i));
        assert(r.last() == s.last());
        lemma_map_remove(s.drop_last(), i);
        assert(k != s.last().account@);
        assert(entries_map(r) =~= entries_map(s).remove(k));
    }
}

proof fn lemma_total_take_step(s: Seq<AccountEntry>, j: int)
    requires
        0 <= j < s.len(),
    ensures
        entries_total(s.take(j + 1)) == entries_total(s.take(j)) + s[j].amount,
{
    assert(s.take(j + 1).drop_last() =~= s.take(j));
    assert(s.take(j + 1).last() == s[j]);
}

proof fn lemma_total_take_le(s: Seq<AccountEntry>, j: int)
    requires
        0 <= j <= s.len(),
    ensures
        entries_total(s.take(j)) <= entries_total(s),
    decreases s.len() - j,
{
    if j == s.len() {
        assert(s.take(j) =~= s);
    } else {
        lemma_total_take_step(s, j);
        lemma_total_take_le(s, j + 1);
    }
}

impl Clone for AccountEntry {
    /// An exact copy of the entry.
    fn clone(&self) -> (r: Self)
        ensures
            r == *self,
    {
        AccountEntry { account: self.account.clone(), amount: self.amount }
    }
}

/// The total of the entries' amounts, when it fits the machine word.
pub fn checked_total(entries: &Vec<AccountEntry>) -> (r: Option<u128>)
    ensures
        match r {
            Some(t) => t == entries_total(entries@),
            None => entries_total(entries@) > u128::MAX,
        },
{
    let mut acc: u128 = 0;
    let mut i: usize = 0;
    proof {
        assert(entries@.take(0) =~= Seq::<AccountEntry>::empty());
    }
    while i < entries.len()
        invariant
            i <= entries@.len(),
            acc == entries_total(entries@.take(i as int)),
        decreases entries@.len() - i,
    {
        proof {
            lemma_total_take_step(entries@, i as int);
        }
        acc = match acc.checked_add(entries[i].amount) {
            Some(v) => v,
            None => {
                proof {
                    lemma_total_take_le(entries@, i as int + 1);
                }
                return None;
            },
        };
        i += 1;
    }
    proof {
        assert(entries@.take(entries@.len() as int) =~= entries@);
    }
    Some(acc)
}

impl View for AccountBook {
    type V = Map<Seq<char>, u128>;

    closed spec fn view(&self) -> Map<Seq<char>, u128> {
        entries_map(self.entries@)
    }
}

impl AccountBook {
    /// The entries hold pairwise-distinct accounts.
    pub closed spec fn wf(&self) -> bool {
        distinct_keys(self.entries@)
    }

    /// The sum of all stored amounts.
    pub closed spec fn total(&self) -> int {
        entries_total(self.entries@)
    }

    /// The total is a sum of unsigned amounts.
    pub proof fn lemma_total_nonneg(&self)
        ensures
            0 <= self.total(),
    {
        lemma_total_nonneg(self.entries@);
    }

    /// No single account holds more than the total.
    pub proof fn lemma_value_le_total(&self, k: Seq<char>)
        requires
            self.wf(),
            self@.dom().contains(k),
        ensures
            self@[k] <= self.total(),
    {
        lemma_map_correspondence(self.entries@);
        let i = choose|i: int|
            0 <= i < self.entries@.len() && #[trigger] self.entries@[i].account@ == k;
        lemma_entry_le_total(self.entries@, i);
    }

    /// No two distinct accounts together hold more than the total.
    pub proof fn lemma_pair_le_total(&self, k1: Seq<char>, k2: Seq<char>)
        requires
            self.wf(),
            self@.dom().contains(k1),
            self@.dom().contains(k2),
            k1 != k2,
        ensures
            self@[k1] + self@[k2] <= self.total(),
    {
        lemma_map_correspondence(self.entries@);
        let i = choose|i: int|
            0 <= i < self.entries@.len() && #[trigger] self.entries@[i].account@ == k1;
        let j = choose|j: int|
            0 <= j < self.entries@.len() && #[trigger] self.entries@[j].account@ == k2;
        lemma_pair_le_total(self.entries@, i, j);
    }

    /// The entries the ledger is made of.
    pub closed spec fn entry_seq(&self) -> Seq<AccountEntry> {
        self.entries@
    }

    /// An empty ledger.
    pub fn new() -> (r: AccountBook)
        ensures
            r@ == Map::<Seq<char>, u128>::empty(),
            r.total() == 0,
            r.wf(),
            r.entry_seq() == Seq::<AccountEntry>::empty(),
    {
        AccountBook { entries: Vec::new() }
    }

    /// Rebuild a ledger from stored entries; answers `None` exactly when two
    /// entries name the same account.
    pub fn from_entries(entries: Vec<AccountEntry>) -> (r: Option<AccountBook>)
        ensures
            r is Some <==> distinct_keys(entries@),
            r matches Some(b) ==> b.wf() && b.entry_seq() == entries@ && b@ == entries_map(
                entries@,
            ) && b.total() == entries_total(entries@),
    {
        let n = entries.len();
        let mut i: usize = 0;
        while i < n
            invariant
                n == entries@.len(),
                i <= n,
                forall|a: int, b: int|
                    0 <= a < b < n && a < i ==> entries@[a].account@ != entries@[b].account@,
            decreases n - i,
        {
            let mut j: usize = i + 1;
            while j < n
                invariant
                    n == entries@.len(),
                    i < n,
                    i < j <= n,
                    forall|b: int|
                        i < b < j ==> entries@[i as int].account@ != (
                        #[trigger] entries@[b].account@),
                decreases n - j,
            {
                if entries[i].account == entries[j].account {
                    return None;
                }
                j += 1;
            }
            i += 1;
        }
        Some(AccountBook { entries })
    }

    /// A copy of the ledger's entries, for the environment to store.
    pub fn entries(&self) -> (r: Vec<AccountEntry>)
        ensures
            r@ == self.entry_seq(),
    {
        let r = self.entries.clone();
        proof {
            assert forall|i: int| 0 <= i < r@.len() implies r@[i] == self.entries@[i] by {
                assert(cloned(self.entries@[i], r@[i]));
            }
            assert(r@ =~= self.entries@);
        }
        r
    }

    fn position_of(&self, account: &String) -> (r: Option<usize>)
        ensures
            match r {
                Some(i) => i < self.entries@.len() && self.entries@[i as int].account@
                    == account@,
                None => forall|i: int|
                    0 <= i < self.entries@.len() ==> (#[trigger] self.entries@[i].account@)
                        != account@,
            },
    {
        let mut i: usize = 0;
        while i < self.entries.len()
            invariant
                i <= self.entries@.len(),
                forall|j: int|
                    0 <= j < i ==> (#[trigger] self.entries@[j].account@) != account@,
            decreases self.entries@.len() - i,
        {
            if self.entries[i].account == *account {
                return Some(i);
            }
            i += 1;
        }
        None
    }

    /// Whether the account has an entry.
    pub fn contains_key(&self, account: &String) -> (r: bool)
        requires
            self.wf(),
        ensures
            r == self@.dom().contains(account@),
    {
        proof {
            lemma_map_correspondence(self.entries@);
        }
        self.position_of(account).is_some()
    }

    /// The account's entry, if it has one.
    pub fn get(&self, account: &String) -> (r: Option<u128>)
        requires
            self.wf(),
        ensures
            match r {
                Some(v) => self@.dom().contains(account@) && self@[account@] == v,
                None => !self@.dom().contains(account@),
            },
    {
        proof {
            lemma_map_correspondence(self.entries@);
        }
        match self.position_of(account) {
            Some(i) => Some(self.entries[i].amount),
            None => None,
        }
    }

    /// Store `amount` under `account`, overwriting any previous entry.
    pub fn set(&mut self, account: &String, amount: u128)
        requires
            old(self).wf(),
        ensures
            final(self)@ == old(self)@.insert(account@, amount),
            final(self).wf(),
            final(self).total() == old(self).total() - amount_in(old(self)@, account@)
                + amount,
    {
        proof {
            lemma_map_correspondence(self.entries@);
        }
        let entry = AccountEntry { account: account.clone(), amount };
        match self.position_of(account) {
            Some(i) => {
                proof {
                    lemma_map_update(self.entries@, i as int, entry);
                    lemma_total_update(self.entries@, i as int, entry);
                }
                self.entries[i] = entry;
            },
            None => {
                proof {
                    let s = self.entries@.push(entry);
                    assert(s.drop_last() =~= self.entries@);
                }
                self.entries.push(entry);
            },
        }
    }

    /// Drop the account's entry, if it has one.
    pub fn remove(&mut self, account: &String)
        requires
            old(self).wf(),
        ensures
            final(self)@ == old(self)@.remove(account@),
            final(self).wf(),
            final(self).total() == old(self).total() - amount_in(old(self)@, account@),
    {
        proof {
            lemma_map_correspondence(self.entries@);
        }
        match self.position_of(account) {
            Some(i) => {
                proof {
                    lemma_map_remove(self.entries@, i as int);
                    lemma_total_remove(self.entries@, i as int);
                    assert forall|a: int, b: int|
                        0 <= a < b < self.entries@.remove(i as int).len() implies self.entries@.remove(
                        i as int,
                    )[a].account@ != self.entries@.remove(i as int)[b].account@ by {}
                }
                self.entries.remove(i);
            },
            None => {
                proof {
                    assert(self@ =~= self@.remove(account@));
                }
            },
        }
    }

    /// Move `amount` from one account's entry to another's, the two being
    /// distinct; fails, changing nothing, when the source holds less than
    /// `amount`. The total is preserved.
    pub fn transfer(&mut self, from: &String, to: &String, amount: u128) -> (r: Result<
        (),
        Error,
    >)
        requires
            old(self).wf(),
            from@ != to@,
            old(self).total() <= u128::MAX,
        ensures
            final(self).wf(),
            final(self).total() == old(self).total(),
            r is Ok <==> amount <= amount_in(old(self)@, from@),
            r is Ok ==> final(self)@ == old(self)@.insert(
                from@,
                (amount_in(old(self)@, from@) - amount) as u128,
            ).insert(to@, (amount_in(old(self)@, to@) + amount) as u128),
            r is Err ==> r == Err::<(), Error>(Error::InsufficientBalance) && final(self)@
                == old(self)@,
    {
        let from_bal = match self.get(from) {
            Some(v) => v,
            None => 0,
        };
        if amount > from_bal {
            return Err(Error::InsufficientBalance);
        }
        let to_bal = match self.get(to) {
            Some(v) => v,
            None => 0,
        };
        proof {
            if self@.dom().contains(from@) && self@.dom().contains(to@) {
                self.lemma_pair_le_total(from@, to@);
            } else if self@.dom().contains(to@) {
                self.lemma_value_le_total(to@);
            } else if self@.dom().contains(from@) {
                self.lemma_value_le_total(from@);
            }
        }
        self.set(from, from_bal - amount);
        self.set(to, to_bal + amount);
        Ok(())
    }
}

} // verus!
