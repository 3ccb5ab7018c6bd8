//! The fungible reward-token ledger: one unsigned balance per account,
//! minted only by the coordinator when a task result is accepted.
//!
//! The central invariant is conservation: the recorded total supply always
//! equals the sum of all balances (`wf`), and every operation's contract
//! says exactly how balances and supply move.

use vstd::prelude::*;

use crate::errors::ErrorKind;

verus! {

/// One account of the ledger.
pub struct TokenAccount {
    pub account_id: String,
    pub balance: u128,
}

/// The mathematical image of one account.
#[verifier::ext_equal]
pub ghost struct AccountEntry {
    pub id: Seq<char>,
    pub balance: u128,
}

impl View for TokenAccount {
    type V = AccountEntry;

    open spec fn view(&self) -> AccountEntry {
        AccountEntry { id: self.account_id@, balance: self.balance }
    }
}

/// The mathematical image of the whole ledger.
#[verifier::ext_equal]
pub ghost struct LedgerView {
    pub accounts: Seq<AccountEntry>,
    pub total_supply: u128,
}

/// The ledger: a list of accounts with unique ids, and the running supply.
pub struct TokenLedger {
    pub accounts: Vec<TokenAccount>,
    pub total_supply: u128,
}

/// The account ids of `s` are pairwise distinct.
pub open spec fn unique_ids(s: Seq<AccountEntry>) -> bool {
    forall|i: int, j: int| 0 <= i < j < s.len() ==> s[i].id != s[j].id
}

/// Some account of `s` carries `id`.
pub open spec fn contains_id(s: Seq<AccountEntry>, id: Seq<char>) -> bool {
    exists|i: int| 0 <= i < s.len() && #[trigger] s[i].id == id
}

/// The index of the account carrying `id` (meaningful under unique ids).
pub open spec fn acct_at(s: Seq<AccountEntry>, id: Seq<char>) -> int {
    choose|i: int| 0 <= i < s.len() && #[trigger] s[i].id == id
}

/// The balance `s` records under `id`, or 0 when `id` is not registered.
pub open spec fn bal_of(s: Seq<AccountEntry>, id: Seq<char>) -> u128 {
    if contains_id(s, id) {
        s[acct_at(s, id)].balance
    } else {
        0
    }
}

/// The sum of all balances of `s`.
pub open spec fn sum_balances(s: Seq<AccountEntry>) -> int
    decreases s.len(),
{
    if s.len() == 0 {
        0
    } else {
        sum_balances(s.drop_last()) + s.last().balance
    }
}

impl View for TokenLedger {
    type V = LedgerView;

    open spec fn view(&self) -> LedgerView {
        LedgerView {
            accounts: Seq::new(self.accounts@.len(), |i: int| self.accounts@[i]@),
            total_supply: self.total_supply,
        }
    }
}

impl LedgerView {
    /// Well-formedness: unique accounts, and the supply is the sum of the
    /// balances (token conservation).
    pub open spec fn wf(self) -> bool {
        &&& unique_ids(self.accounts)
        &&& self.total_supply == sum_balances(self.accounts)
    }

    /// The balance recorded under `id` (0 when unregistered).
    pub open spec fn balance(self, id: Seq<char>) -> u128 {
        bal_of(self.accounts, id)
    }

    /// `id` is registered.
    pub open spec fn registered(self, id: Seq<char>) -> bool {
        contains_id(self.accounts, id)
    }
}

/// The sum never goes negative.
pub proof fn lemma_sum_nonneg(s: Seq<AccountEntry>)
    ensures
        sum_balances(s) >= 0,
    decreases s.len(),
{
    if s.len() > 0 {
        lemma_sum_nonneg(s.drop_last());
    }
}

/// Appending one account adds its balance to the sum.
pub proof fn lemma_sum_push(s: Seq<AccountEntry>, e: AccountEntry)
    ensures
        sum_balances(s.push(e)) == sum_balances(s) + e.balance,
{
    assert(s.push(e).drop_last() =~= s);
}

/// Replacing the account at `i` moves the sum by the balance difference.
pub proof fn lemma_sum_update(s: Seq<AccountEntry>, i: int, e: AccountEntry)
    requires
        0 <= i < s.len(),
    ensures
        sum_balances(s.update(i, e)) == sum_balances(s) - s[i].balance + e.balance,
    decreases s.len(),
{
    if i == s.len() - 1 {
        assert(s.update(i, e).drop_last() =~= s.drop_last());
    } else {
        assert(s.update(i, e).drop_last() =~= s.drop_last().update(i, e));
        lemma_sum_update(s.drop_last(), i, e);
    }
}

/// Every single balance is bounded by the sum.
pub proof fn lemma_bal_le_sum(s: Seq<AccountEntry>, i: int)
    requires
        0 <= i < s.len(),
    ensures
        s[i].balance <= sum_balances(s),
    decreases s.len(),
{
    lemma_sum_nonneg(s.drop_last());
    if i < s.len() - 1 {
        lemma_bal_le_sum(s.drop_last(), i);
    }
}

/// Two distinct balances together are bounded by the sum.
pub proof fn lemma_pair_le_sum(s: Seq<AccountEntry>, i: int, j: int)
    requires
        0 <= i < s.len(),
        0 <= j < s.len(),
        i != j,
    ensures
        s[i].balance + s[j].balance <= sum_balances(s),
    decreases s.len(),
{
    if i == s.len() - 1 {
        lemma_bal_le_sum(s.drop_last(), j);
    } else if j == s.len() - 1 {
        lemma_bal_le_sum(s.drop_last(), i);
    } else {
        lemma_pair_le_sum(s.drop_last(), i, j);
        lemma_sum_nonneg(s.drop_last());
    }
}

impl TokenLedger {
    /// An empty ledger.
    pub fn new() -> (r: TokenLedger)
        ensures
            r@.wf(),
            r@.accounts.len() == 0,
            r@.total_supply == 0,
    {
        let r = TokenLedger { accounts: Vec::new(), total_supply: 0 };
        proof {
            assert(r@.accounts =~= Seq::<AccountEntry>::empty());
        }
        r
    }

    /// Finds the index of `id`, or `None` when it is not registered.
    fn find(&self, id: &str) -> (r: Option<usize>)
        ensures
            match r {
                Some(i) => 0 <= i < self@.accounts.len() && self@.accounts[i as int].id == id@,
                None => !self@.registered(id@),
            },
    {
        let n = self.accounts.len();
        let mut k: usize = 0;
        while k < n
            invariant
                n == self@.accounts.len(),
                0 <= k <= n,
                forall|j: int| 0 <= j < k ==> #[trigger] self@.accounts[j].id != id@,
            decreases n - k,
        {
            if crate::strutil::str_eq(self.accounts[k].account_id.as_str(), id) {
                return Some(k);
            }
            k = k + 1;
        }
        None
    }

    /// Registers `id` with a zero balance; does nothing when it already
    /// exists (idempotent).
    pub fn register_account(&mut self, id: &str)
        requires
            old(self)@.wf(),
        ensures
            final(self)@.wf(),
            final(self)@.registered(id@),
            old(self)@.registered(id@) ==> final(self)@ == old(self)@,
            !old(self)@.registered(id@) ==> final(self)@.accounts == old(self)@.accounts.push(
                AccountEntry { id: id@, balance: 0 },
            ),
            final(self)@.total_supply == old(self)@.total_supply,
            forall|a: Seq<char>| final(self)@.balance(a) == old(self)@.balance(a),
    {
        match self.find(id) {
            Some(_) => {
                proof {
                    assert(final(self)@ =~= old(self)@);
                }
            },
            None => {
                let entry = TokenAccount { account_id: id.to_owned(), balance: 0 };
                self.accounts.push(entry);
                proof {
                    let sold = old(self)@.accounts;
                    let snew = final(self)@.accounts;
                    assert(snew =~= sold.push(AccountEntry { id: id@, balance: 0 }));
                    lemma_sum_push(sold, AccountEntry { id: id@, balance: 0 });
                    assert forall|a: Seq<char>| final(self)@.balance(a) == old(self)@.balance(
                        a,
                    ) by {
                        lemma_bal_unchanged_by_zero_push(sold, id@, a);
                    }
                    assert(final(self)@.registered(id@)) by {
                        assert(snew[sold.len() as int].id == id@);
                    }
                }
            },
        }
    }

    /// Mints `amount` into `id`'s balance, growing the supply by the same
    /// amount. Fails with `NotRegistered` when `id` has no account, and
    /// with `Internal` when the supply would overflow.
    pub fn internal_deposit(&mut self, id: &str, amount: u128) -> (r: Result<(), ErrorKind>)
        requires
            old(self)@.wf(),
        ensures
            final(self)@.wf(),
            r is Ok <==> old(self)@.registered(id@) && old(self)@.total_supply + amount
                <= u128::MAX,
            r is Err ==> final(self)@ == old(self)@ && (r->Err_0 == ErrorKind::NotRegistered || r
                ->Err_0 == ErrorKind::Internal),
            r == Err::<(), ErrorKind>(ErrorKind::NotRegistered) <==> !old(self)@.registered(id@),
            r is Ok ==> {
                &&& final(self)@.balance(id@) == old(self)@.balance(id@) + amount
                &&& final(self)@.total_supply == old(self)@.total_supply + amount
                &&& forall|a: Seq<char>|
                    a != id@ ==> final(self)@.balance(a) == old(self)@.balance(a)
                &&& final(self)@.registered(id@)
                &&& forall|a: Seq<char>| final(self)@.registered(a) == old(self)@.registered(a)
                &&& final(self)@.accounts == old(self)@.accounts.update(
                    acct_at(old(self)@.accounts, id@),
                    AccountEntry {
                        id: id@,
                        balance: (old(self)@.balance(id@) + amount) as u128,
                    },
                )
            },
    {
        let i = match self.find(id) {
            Some(i) => i,
            None => {
                return Err(ErrorKind::NotRegistered);
            },
        };
        if amount > u128::MAX - self.total_supply {
            return Err(ErrorKind::Internal);
        }
        proof {
            lemma_bal_le_sum(self@.accounts, i as int);
            lemma_id_at_index(self@.accounts, i as int, id@);
        }
        let new_balance = self.accounts[i].balance + amount;
        let account_id = self.accounts[i].account_id.clone();
        self.accounts.set(i, TokenAccount { account_id, balance: new_balance });
        self.total_supply = self.total_supply + amount;
        proof {
            let sold = old(self)@.accounts;
            let snew = final(self)@.accounts;
            let e = AccountEntry { id: id@, balance: (bal_of(sold, id@) + amount) as u128 };
            assert(snew =~= sold.update(i as int, e));
            assert(acct_at(sold, id@) == i as int);
            lemma_sum_update(sold, i as int, e);
            lemma_update_balance(sold, i as int, e);
        }
        Ok(())
    }

    /// Burns `amount` from `id`'s balance, shrinking the supply.
    /// Fails with `NotRegistered` or `InsufficientBalance`.
    pub fn internal_withdraw(&mut self, id: &str, amount: u128) -> (r: Result<(), ErrorKind>)
        requires
            old(self)@.wf(),
        ensures
            final(self)@.wf(),
            r is Ok <==> old(self)@.registered(id@) && old(self)@.balance(id@) >= amount,
            r == Err::<(), ErrorKind>(ErrorKind::NotRegistered) <==> !old(self)@.registered(id@),
            r is Err ==> final(self)@ == old(self)@ && (r->Err_0 == ErrorKind::NotRegistered || r
                ->Err_0 == ErrorKind::InsufficientBalance),
            r is Ok ==> {
                &&& final(self)@.balance(id@) == old(self)@.balance(id@) - amount
                &&& final(self)@.total_supply == old(self)@.total_supply - amount
                &&& forall|a: Seq<char>|
                    a != id@ ==> final(self)@.balance(a) == old(self)@.balance(a)
                &&& forall|a: Seq<char>| final(self)@.registered(a) == old(self)@.registered(a)
            },
    {
        let i = match self.find(id) {
            Some(i) => i,
            None => {
                return Err(ErrorKind::NotRegistered);
            },
        };
        proof {
            lemma_id_at_index(self@.accounts, i as int, id@);
        }
        if self.accounts[i].balance < amount {
            return Err(ErrorKind::InsufficientBalance);
        }
        proof {
            lemma_bal_le_sum(self@.accounts, i as int);
        }
        let new_balance = self.accounts[i].balance - amount;
        let account_id = self.accounts[i].account_id.clone();
        self.accounts.set(i, TokenAccount { account_id, balance: new_balance });
        self.total_supply = self.total_supply - amount;
        proof {
            let sold = old(self)@.accounts;
            let snew = final(self)@.accounts;
            let e = AccountEntry { id: id@, balance: (bal_of(sold, id@) - amount) as u128 };
            assert(snew =~= sold.update(i as int, e));
            lemma_sum_update(sold, i as int, e);
            lemma_update_balance(sold, i as int, e);
        }
        Ok(())
    }

    /// Moves `amount` from `from` to `to`. The supply is unchanged.
    /// Success needs distinct registered accounts, a positive amount and a
    /// sufficient balance.
    pub fn transfer(&mut self, from: &str, to: &str, amount: u128) -> (r: Result<(), ErrorKind>)
        requires
            old(self)@.wf(),
        ensures
            final(self)@.wf(),
            r is Ok <==> from@ != to@ && amount > 0 && old(self)@.registered(from@) && old(
                self,
            )@.registered(to@) && old(self)@.balance(from@) >= amount,
            r is Err ==> final(self)@ == old(self)@,
            r is Ok ==> {
                &&& final(self)@.balance(from@) == old(self)@.balance(from@) - amount
                &&& final(self)@.balance(to@) == old(self)@.balance(to@) + amount
                &&& forall|a: Seq<char>|
                    a != from@ && a != to@ ==> final(self)@.balance(a) == old(self)@.balance(a)
                &&& final(self)@.total_supply == old(self)@.total_supply
                &&& forall|a: Seq<char>| final(self)@.registered(a) == old(self)@.registered(a)
            },
    {
        if crate::strutil::str_eq(from, to) {
            return Err(ErrorKind::BadRequest);
        }
        if amount == 0 {
            return Err(ErrorKind::BadRequest);
        }
        let i = match self.find(from) {
            Some(i) => i,
            None => {
                return Err(ErrorKind::NotRegistered);
            },
        };
        let j = match self.find(to) {
            Some(j) => j,
            None => {
                return Err(ErrorKind::NotRegistered);
            },
        };
        proof {
            lemma_id_at_index(self@.accounts, i as int, from@);
            lemma_id_at_index(self@.accounts, j as int, to@);
        }
        if self.accounts[i].balance < amount {
            return Err(ErrorKind::InsufficientBalance);
        }
        proof {
            lemma_pair_le_sum(self@.accounts, i as int, j as int);
        }
        let from_balance = self.accounts[i].balance - amount;
        let from_id = self.accounts[i].account_id.clone();
        self.accounts.set(i, TokenAccount { account_id: from_id, balance: from_balance });
        proof {
            let s0 = old(self)@.accounts;
            let e1 = AccountEntry { id: from@, balance: (bal_of(s0, from@) - amount) as u128 };
            assert(self@.accounts =~= s0.update(i as int, e1));
            lemma_sum_update(s0, i as int, e1);
            lemma_update_balance(s0, i as int, e1);
        }
        let to_balance = self.accounts[j].balance + amount;
        let to_id = self.accounts[j].account_id.clone();
        self.accounts.set(j, TokenAccount { account_id: to_id, balance: to_balance });
        proof {
            let s0 = old(self)@.accounts;
            let e1 = AccountEntry { id: from@, balance: (bal_of(s0, from@) - amount) as u128 };
            let s1 = s0.update(i as int, e1);
            let e2 = AccountEntry { id: to@, balance: (bal_of(s1, to@) + amount) as u128 };
            assert(final(self)@.accounts =~= s1.update(j as int, e2));
            lemma_sum_update(s1, j as int, e2);
            lemma_update_balance(s1, j as int, e2);
        }
        Ok(())
    }

    /// The balance of `id`, 0 when unregistered.
    pub fn balance_of(&self, id: &str) -> (r: u128)
        requires
            self@.wf(),
        ensures
            r == self@.balance(id@),
    {
        match self.find(id) {
            Some(i) => {
                proof {
                    lemma_id_at_index(self@.accounts, i as int, id@);
                }
                self.accounts[i].balance
            },
            None => 0,
        }
    }

    /// The registered total supply.
    pub fn supply(&self) -> (r: u128)
        ensures
            r == self@.total_supply,
    {
        self.total_supply
    }

    /// Whether `id` has an account.
    pub fn is_registered(&self, id: &str) -> (r: bool)
        ensures
            r == self@.registered(id@),
    {
        self.find(id).is_some()
    }
}

/// Under unique ids, the account found at `i` is the one `bal_of` speaks of.
pub proof fn lemma_id_at_index(s: Seq<AccountEntry>, i: int, id: Seq<char>)
    requires
        unique_ids(s),
        0 <= i < s.len(),
        s[i].id == id,
    ensures
        contains_id(s, id),
        bal_of(s, id) == s[i].balance,
        acct_at(s, id) == i,
{
    let w = choose|k: int| 0 <= k < s.len() && #[trigger] s[k].id == id;
    if w != i {
        assert(s[w].id == s[i].id);
    }
}

/// After `update(i, e)` with `e.id == s[i].id`, lookups see the new balance
/// at `e.id` and the old one elsewhere.
pub proof fn lemma_update_balance(s: Seq<AccountEntry>, i: int, e: AccountEntry)
    requires
        unique_ids(s),
        0 <= i < s.len(),
        s[i].id == e.id,
    ensures
        unique_ids(s.update(i, e)),
        bal_of(s.update(i, e), e.id) == e.balance,
        forall|a: Seq<char>| a != e.id ==> bal_of(s.update(i, e), a) == bal_of(s, a),
        forall|a: Seq<char>| contains_id(s.update(i, e), a) == contains_id(s, a),
{
    let t = s.update(i, e);
    assert forall|a: Seq<char>| contains_id(t, a) == contains_id(s, a) by {
        if contains_id(t, a) {
            let k = choose|k: int| 0 <= k < t.len() && #[trigger] t[k].id == a;
            if k == i {
                assert(s[i].id == a);
            } else {
                assert(s[k].id == a);
            }
        }
        if contains_id(s, a) {
            let k = choose|k: int| 0 <= k < s.len() && #[trigger] s[k].id == a;
            if k == i {
                assert(t[i].id == a);
            } else {
                assert(t[k].id == a);
            }
        }
    }
    lemma_id_at_index(t, i, e.id);
    assert forall|a: Seq<char>| a != e.id implies bal_of(t, a) == bal_of(s, a) by {
        if contains_id(s, a) {
            let k = choose|k: int| 0 <= k < s.len() && #[trigger] s[k].id == a;
            assert(k != i);
            assert(t[k].id == a);
            lemma_id_at_index(s, k, a);
            lemma_id_at_index(t, k, a);
        }
    }
}

/// Registering a fresh zero account does not change any balance.
proof fn lemma_bal_unchanged_by_zero_push(s: Seq<AccountEntry>, id: Seq<char>, a: Seq<char>)
    requires
        unique_ids(s),
        !contains_id(s, id),
    ensures
        unique_ids(s.push(AccountEntry { id: id, balance: 0 })),
        bal_of(s.push(AccountEntry { id: id, balance: 0 }), a) == bal_of(s, a),
{
    let e = AccountEntry { id: id, balance: 0 };
    let t = s.push(e);
    assert(forall|k: int| 0 <= k < s.len() ==> t[k] == s[k]);
    assert(unique_ids(t)) by {
        assert forall|x: int, y: int| 0 <= x < y < t.len() implies t[x].id != t[y].id by {
            if y == s.len() {
                if t[x].id == id {
                    assert(s[x].id == id);
                }
            }
        }
    }
    if a == id {
        assert(t[s.len() as int].id == a);
        lemma_id_at_index(t, s.len() as int, a);
        assert(bal_of(s, a) == 0);
    } else {
        if contains_id(s, a) {
            let k = choose|k: int| 0 <= k < s.len() && #[trigger] s[k].id == a;
            lemma_id_at_index(s, k, a);
            lemma_id_at_index(t, k, a);
        } else {
            if contains_id(t, a) {
                let k = choose|k: int| 0 <= k < t.len() && #[trigger] t[k].id == a;
                assert(k == s.len());
            }
        }
    }
}

} // verus!
