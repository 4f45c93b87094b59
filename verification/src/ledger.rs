//! A model of the external token ledger at its boundary.
//!
//! The engine in [`crate::contract`] only ever observes the ledger through
//! `balance` and moves value through `transfer`; this module gives those
//! operations exact contracts over the abstract balance map and maintains the
//! ledger's own conservation invariant: the sum of all balances equals the
//! recorded total supply and never exceeds `u64::MAX`, so no transfer can
//! overflow a receiving account.

use crate::errors::Error;
use vstd::prelude::*;

verus! {

/// One account on the ledger: an identifier and its current balance.
#[derive(Clone, Copy, PartialEq, Eq, Structural, Debug)]
pub struct Account {
    pub id: u64,
    pub balance: u64,
}

/// The sum of the balances of a sequence of accounts.
pub open spec fn sum_balances(s: Seq<Account>) -> int
    decreases s.len(),
{
    if s.len() == 0 {
        0
    } else {
        sum_balances(s.drop_last()) + s.last().balance
    }
}

/// No two accounts in the sequence share an identifier.
pub open spec fn distinct_ids(s: Seq<Account>) -> bool {
    forall|i: int, j: int| 0 <= i < j < s.len() ==> s[i].id != s[j].id
}

/// The balance the sequence records for `id`, or 0 when `id` is absent.
pub open spec fn bal_in(s: Seq<Account>, id: u64) -> int
    decreases s.len(),
{
    if s.len() == 0 {
        0
    } else if s.last().id == id {
        s.last().balance as int
    } else {
        bal_in(s.drop_last(), id)
    }
}

proof fn lemma_sum_nonneg(s: Seq<Account>)
    ensures
        sum_balances(s) >= 0,
    decreases s.len(),
{
    if s.len() > 0 {
        lemma_sum_nonneg(s.drop_last());
    }
}

proof fn lemma_bal_le_sum(s: Seq<Account>, i: int)
    requires
        0 <= i < s.len(),
    ensures
        s[i].balance <= sum_balances(s),
    decreases s.len(),
{
    if i == s.len() - 1 {
        lemma_sum_nonneg(s.drop_last());
    } else {
        lemma_bal_le_sum(s.drop_last(), i);
    }
}

proof fn lemma_pair_le_sum(s: Seq<Account>, i: int, j: int)
    requires
        0 <= i < s.len(),
        0 <= j < s.len(),
        i != j,
    ensures
        s[i].balance + s[j].balance <= sum_balances(s),
    decreases s.len(),
{
    if j == s.len() - 1 {
        lemma_bal_le_sum(s.drop_last(), i);
    } else if i == s.len() - 1 {
        lemma_bal_le_sum(s.drop_last(), j);
    } else {
        lemma_pair_le_sum(s.drop_last(), i, j);
    }
}

proof fn lemma_sum_update(s: Seq<Account>, i: int, v: Account)
    requires
        0 <= i < s.len(),
    ensures
        sum_balances(s.update(i, v)) == sum_balances(s) - s[i].balance + v.balance,
    decreases s.len(),
{
    if i == s.len() - 1 {
        assert(s.update(i, v).drop_last() =~= s.drop_last());
    } else {
        assert(s.update(i, v).drop_last() =~= s.drop_last().update(i, v));
        lemma_sum_update(s.drop_last(), i, v);
    }
}

proof fn lemma_sum_push(s: Seq<Account>, v: Account)
    ensures
        sum_balances(s.push(v)) == sum_balances(s) + v.balance,
{
    assert(s.push(v).drop_last() =~= s);
}

proof fn lemma_bal_in_index(s: Seq<Account>, i: int)
    requires
        distinct_ids(s),
        0 <= i < s.len(),
    ensures
        bal_in(s, s[i].id) == s[i].balance,
    decreases s.len(),
{
    if i < s.len() - 1 {
        assert(distinct_ids(s.drop_last()));
        lemma_bal_in_index(s.drop_last(), i);
    }
}

proof fn lemma_bal_in_nonneg(s: Seq<Account>, id: u64)
    ensures
        bal_in(s, id) >= 0,
    decreases s.len(),
{
    if s.len() > 0 && s.last().id != id {
        lemma_bal_in_nonneg(s.drop_last(), id);
    }
}

proof fn lemma_bal_in_absent(s: Seq<Account>, id: u64)
    requires
        forall|j: int| 0 <= j < s.len() ==> s[j].id != id,
    ensures
        bal_in(s, id) == 0,
    decreases s.len(),
{
    if s.len() > 0 {
        lemma_bal_in_absent(s.drop_last(), id);
    }
}

proof fn lemma_bal_in_update(s: Seq<Account>, i: int, v: Account)
    requires
        distinct_ids(s),
        0 <= i < s.len(),
        v.id == s[i].id,
    ensures
        distinct_ids(s.update(i, v)),
        bal_in(s.update(i, v), v.id) == v.balance,
        forall|x: u64| x != v.id ==> #[trigger] bal_in(s.update(i, v), x) == bal_in(s, x),
    decreases s.len(),
{
    let t = s.update(i, v);
    assert(distinct_ids(t)) by {
        assert(forall|k: int| 0 <= k < s.len() ==> t[k].id == s[k].id);
    }
    lemma_bal_in_index(t, i);
    if i == s.len() - 1 {
        assert(t.drop_last() =~= s.drop_last());
        assert forall|x: u64| x != v.id implies #[trigger] bal_in(t, x) == bal_in(s, x) by {
            assert(t.last() == v);
            assert(s.last().id == v.id);
            assert(bal_in(t, x) == bal_in(t.drop_last(), x));
            assert(bal_in(s, x) == bal_in(s.drop_last(), x));
        }
    } else {
        assert(t.drop_last() =~= s.drop_last().update(i, v));
        assert(distinct_ids(s.drop_last()));
        lemma_bal_in_update(s.drop_last(), i, v);
        assert forall|x: u64| x != v.id implies #[trigger] bal_in(t, x) == bal_in(s, x) by {
            assert(t.last() == s.last());
            if s.last().id != x {
                assert(bal_in(t, x) == bal_in(t.drop_last(), x));
                assert(bal_in(s, x) == bal_in(s.drop_last(), x));
            }
        }
    }
}

proof fn lemma_bal_in_push(s: Seq<Account>, v: Account)
    requires
        distinct_ids(s),
        forall|j: int| 0 <= j < s.len() ==> s[j].id != v.id,
    ensures
        distinct_ids(s.push(v)),
        bal_in(s.push(v), v.id) == v.balance,
        forall|x: u64| x != v.id ==> #[trigger] bal_in(s.push(v), x) == bal_in(s, x),
{
    assert(s.push(v).drop_last() =~= s);
}

/// An in-memory ledger: a set of accounts with distinct identifiers, together
/// with the total supply, which always equals the sum of all balances.
pub struct Ledger {
    accounts: Vec<Account>,
    total: u64,
}

impl Ledger {
    /// The ledger's conservation invariant: identifiers are distinct and the
    /// recorded total supply is exactly the sum of all balances.
    pub closed spec fn wf(self) -> bool {
        &&& distinct_ids(self.accounts@)
        &&& self.total as int == sum_balances(self.accounts@)
    }

    /// The balance of `id`; an account never listed holds 0.
    pub closed spec fn balance_of(self, id: u64) -> int {
        bal_in(self.accounts@, id)
    }

    /// The sum of all balances on the ledger.
    pub closed spec fn total_supply(self) -> int {
        self.total as int
    }

    /// An empty ledger: every balance is 0.
    pub fn new() -> (l: Ledger)
        ensures
            l.wf(),
            l.total_supply() == 0,
            forall|id: u64| #[trigger] l.balance_of(id) == 0,
    {
        Ledger { accounts: Vec::new(), total: 0 }
    }

    fn find_account(&self, id: u64) -> (r: Option<usize>)
        ensures
            match r {
                Some(i) => i < self.accounts@.len() && self.accounts@[i as int].id == id,
                None => forall|j: int| 0 <= j < self.accounts@.len() ==> self.accounts@[j].id != id,
            },
    {
        let n = self.accounts.len();
        let mut i: usize = 0;
        while i < n
            invariant
                i <= n,
                n == self.accounts@.len(),
                forall|j: int| 0 <= j < i ==> self.accounts@[j].id != id,
            decreases n - i,
        {
            if self.accounts[i].id == id {
                return Some(i);
            }
            i = i + 1;
        }
        None
    }

    /// Balance query: reports exactly the abstract balance of `id`.
    pub fn balance(&self, id: u64) -> (r: u64)
        requires
            self.wf(),
        ensures
            r as int == self.balance_of(id),
    {
        match self.find_account(id) {
            Some(i) => {
                proof {
                    lemma_bal_in_index(self.accounts@, i as int);
                }
                self.accounts[i].balance
            }
            None => {
                proof {
                    lemma_bal_in_absent(self.accounts@, id);
                }
                0
            }
        }
    }

    /// Creates `amount` new units on `to`'s account.  Fails exactly when the
    /// total supply would exceed `u64::MAX`; on failure nothing changes.
    pub fn mint(&mut self, to: u64, amount: u64) -> (r: Result<(), Error>)
        requires
            old(self).wf(),
        ensures
            final(self).wf(),
            r is Ok <==> old(self).total_supply() + amount <= u64::MAX,
            r is Err ==> r == Err::<(), Error>(Error::ArithmeticOverflow) && *final(self) == *old(self),
            r is Ok ==> final(self).total_supply() == old(self).total_supply() + amount,
            r is Ok ==> final(self).balance_of(to) == old(self).balance_of(to) + amount,
            r is Ok ==> forall|x: u64| x != to ==> #[trigger] final(self).balance_of(x) == old(self).balance_of(x),
    {
        let new_total = match self.total.checked_add(amount) {
            Some(t) => t,
            None => {
                return Err(Error::ArithmeticOverflow);
            }
        };
        let ghost s0 = self.accounts@;
        match self.find_account(to) {
            Some(i) => {
                proof {
                    lemma_bal_in_index(s0, i as int);
                    lemma_bal_le_sum(s0, i as int);
                }
                let b = self.accounts[i].balance;
                self.accounts[i] = Account { id: to, balance: b + amount };
                proof {
                    lemma_sum_update(s0, i as int, Account { id: to, balance: (b + amount) as u64 });
                    lemma_bal_in_update(s0, i as int, Account { id: to, balance: (b + amount) as u64 });
                }
                self.total = new_total;
                Ok(())
            }
            None => {
                proof {
                    lemma_bal_in_absent(s0, to);
                    lemma_sum_push(s0, Account { id: to, balance: amount });
                    lemma_bal_in_push(s0, Account { id: to, balance: amount });
                }
                self.accounts.push(Account { id: to, balance: amount });
                self.total = new_total;
                Ok(())
            }
        }
    }

    /// Moves `amount` from `from` to `to`.  Succeeds exactly when the two
    /// accounts differ and `from` holds at least `amount`; on failure nothing
    /// changes.  The total supply is conserved, every other balance is
    /// untouched, and no balance can overflow, since the sum of all balances
    /// fits in a `u64`.
    pub fn transfer(&mut self, from: u64, to: u64, amount: u64) -> (r: Result<(), Error>)
        requires
            old(self).wf(),
        ensures
            final(self).wf(),
            r is Ok <==> from != to && old(self).balance_of(from) >= amount,
            r is Err ==> r == Err::<(), Error>(Error::LedgerOperationFailed) && *final(self) == *old(self),
            r is Ok ==> final(self).balance_of(from) == old(self).balance_of(from) - amount,
            r is Ok ==> final(self).balance_of(to) == old(self).balance_of(to) + amount,
            r is Ok ==> forall|x: u64| x != from && x != to ==> #[trigger] final(self).balance_of(x)
                == old(self).balance_of(x),
            r is Ok ==> final(self).total_supply() == old(self).total_supply(),
    {
        if from == to {
            return Err(Error::LedgerOperationFailed);
        }
        if amount == 0 {
            proof {
                lemma_bal_in_nonneg(self.accounts@, from);
            }
            return Ok(());
        }
        let ghost s0 = self.accounts@;
        let fi = match self.find_account(from) {
            Some(i) => i,
            None => {
                proof {
                    lemma_bal_in_absent(s0, from);
                }
                return Err(Error::LedgerOperationFailed);
            }
        };
        proof {
            lemma_bal_in_index(s0, fi as int);
        }
        let fb = self.accounts[fi].balance;
        if fb < amount {
            return Err(Error::LedgerOperationFailed);
        }
        self.accounts[fi] = Account { id: from, balance: fb - amount };
        proof {
            lemma_sum_update(s0, fi as int, Account { id: from, balance: (fb - amount) as u64 });
            lemma_bal_in_update(s0, fi as int, Account { id: from, balance: (fb - amount) as u64 });
        }
        let ghost s1 = self.accounts@;
        match self.find_account(to) {
            Some(j) => {
                proof {
                    assert(s1[j as int].id == to);
                    assert(s0[j as int] == s1[j as int]);
                    lemma_bal_in_index(s0, j as int);
                    lemma_pair_le_sum(s0, fi as int, j as int);
                }
                let tb = self.accounts[j].balance;
                self.accounts[j] = Account { id: to, balance: tb + amount };
                proof {
                    lemma_sum_update(s1, j as int, Account { id: to, balance: (tb + amount) as u64 });
                    lemma_bal_in_update(s1, j as int, Account { id: to, balance: (tb + amount) as u64 });
                    lemma_bal_in_index(s1, j as int);
                }
                Ok(())
            }
            None => {
                proof {
                    lemma_bal_in_absent(s1, to);
                    assert forall|j: int| 0 <= j < s0.len() implies s0[j].id != to by {
                        assert(s1[j].id == s0[j].id);
                    }
                    lemma_bal_in_absent(s0, to);
                    lemma_sum_push(s1, Account { id: to, balance: amount });
                    lemma_bal_in_push(s1, Account { id: to, balance: amount });
                }
                self.accounts.push(Account { id: to, balance: amount });
                Ok(())
            }
        }
    }
}

} // verus!
