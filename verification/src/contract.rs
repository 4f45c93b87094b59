//! The distribution contract: administrator guard, deposit registry,
//! attendance tracking, and the payout and refund engines.

use crate::errors::Error;
use crate::ledger::Ledger;
use crate::registry::{
    attended_flag, count_attended, distinct_participants, registered, sum_deposits, Depositor,
};
use vstd::prelude::*;

verus! {

use crate::registry::{
    lemma_count_take_le, lemma_count_take_succ, lemma_sum_take_le, lemma_sum_take_succ,
};
use vstd::arithmetic::div_mod::{lemma_fundamental_div_mod, lemma_mod_bound};
use vstd::arithmetic::mul::lemma_mul_inequality;

/// The payout law: with pool balance `b` and `k > 0` eligible participants,
/// every eligible participant receives the share `b / k` rounded down, so
/// the total disbursed `k * (b / k)` never exceeds `b`, and the remainder
/// deliberately left in the pool is exactly `b % k`, which is less than `k`.
pub proof fn lemma_share_arithmetic(b: int, k: int)
    requires
        0 <= b,
        0 < k,
    ensures
        0 <= k * (b / k) <= b,
        b - k * (b / k) == b % k,
        0 <= b % k < k,
{
    lemma_fundamental_div_mod(b, k);
    lemma_mod_bound(b, k);
    vstd::arithmetic::div_mod::lemma_div_pos_is_pos(b, k);
    lemma_mul_inequality(0, b / k, k);
    assert(k * (b / k) == (b / k) * k) by (nonlinear_arith);
}

/// The bookkeeping law: in every well-formed contract state, the attendance
/// counter equals exactly the number of records marked attended — it never
/// drifts, however often `attended` is repeated — the running deposit total
/// equals the sum of all recorded deposits, and no participant appears in
/// the registry twice.
pub proof fn lemma_registry_accounting(d: Distribution)
    requires
        d.wf(),
    ensures
        d.attended_total() == count_attended(d.records()),
        d.deposits_total() == sum_deposits(d.records()),
        distinct_participants(d.records()),
{
}

/// The four logical slots of persisted contract state.
#[derive(Clone, Copy, PartialEq, Eq, Structural, Debug)]
pub enum DataKey {
    /// The administrator's identifier.
    Admin,
    /// The participant registry.
    Depositors,
    /// The token ledger reference.
    Token,
    /// The number of attendees seen.
    Attended,
}

/// The distribution contract's state: its own ledger account, the
/// administrator and token reference (each set exactly once), the deposit
/// registry in insertion order, the attendance counter, and the running sum
/// of recorded deposits.
pub struct Distribution {
    contract_id: u64,
    admin: Option<u64>,
    token: Option<u64>,
    depositors: Vec<(u64, Depositor)>,
    attended_count: u32,
    total_deposits: u64,
}

impl Distribution {
    /// The contract's well-formedness invariant, established by `new` and
    /// preserved by every operation: participants are unique and never the
    /// pool's own account, the attendance counter equals the number of
    /// records marked attended, the running total equals the sum of recorded
    /// deposits, and administrator and token reference are set together.
    pub closed spec fn wf(self) -> bool {
        &&& distinct_participants(self.depositors@)
        &&& self.attended_count as int == count_attended(self.depositors@)
        &&& self.total_deposits as int == sum_deposits(self.depositors@)
        &&& (self.admin is Some <==> self.token is Some)
        &&& forall|i: int| 0 <= i < self.depositors@.len() ==> (#[trigger] self.depositors@[i]).0
            != self.contract_id
    }

    /// The ledger account the pool's funds sit on.
    pub closed spec fn pool_account(self) -> u64 {
        self.contract_id
    }

    /// The administrator, once set.
    pub closed spec fn admin(self) -> Option<u64> {
        self.admin
    }

    /// The token ledger reference, once set.
    pub closed spec fn token(self) -> Option<u64> {
        self.token
    }

    /// The registry's records, in insertion order.
    pub closed spec fn records(self) -> Seq<(u64, Depositor)> {
        self.depositors@
    }

    /// The attendance counter.
    pub closed spec fn attended_total(self) -> int {
        self.attended_count as int
    }

    /// The sum of all recorded deposits.
    pub closed spec fn deposits_total(self) -> int {
        self.total_deposits as int
    }

    /// Whether `initialize` has run.
    pub open spec fn is_initialized(self) -> bool {
        self.admin() is Some
    }

    /// A fresh, uninitialized contract owning the ledger account
    /// `contract_id`.
    pub fn new(contract_id: u64) -> (d: Distribution)
        ensures
            d.wf(),
            d.pool_account() == contract_id,
            d.admin() is None,
            d.token() is None,
            d.records() =~= Seq::<(u64, Depositor)>::empty(),
            d.attended_total() == 0,
            d.deposits_total() == 0,
    {
        Distribution {
            contract_id,
            admin: None,
            token: None,
            depositors: Vec::new(),
            attended_count: 0,
            total_deposits: 0,
        }
    }

    /// Sets the administrator and the token reference, exactly once.  A
    /// second call fails and leaves both unchanged.
    pub fn initialize(&mut self, admin: u64, token: u64) -> (r: Result<(), Error>)
        requires
            old(self).wf(),
        ensures
            final(self).wf(),
            r is Ok <==> !old(self).is_initialized(),
            r is Err ==> r == Err::<(), Error>(Error::AlreadyInitialized) && *final(self) == *old(
                self,
            ),
            r is Ok ==> final(self).admin() == Some(admin) && final(self).token() == Some(token),
            final(self).records() == old(self).records(),
            final(self).attended_total() == old(self).attended_total(),
            final(self).deposits_total() == old(self).deposits_total(),
            final(self).pool_account() == old(self).pool_account(),
    {
        if self.admin.is_some() {
            return Err(Error::AlreadyInitialized);
        }
        self.admin = Some(admin);
        self.token = Some(token);
        Ok(())
    }

    /// Whether an administrator has been stored.
    pub fn has_administrator(&self) -> (r: bool)
        ensures
            r == (self.admin() is Some),
    {
        self.admin.is_some()
    }

    /// Authorization check for the privileged operations: succeeds exactly
    /// when `caller` is the stored administrator.  Side-effect-free.
    pub fn check_admin(&self, caller: u64) -> (r: Result<(), Error>)
        ensures
            r is Ok <==> self.admin() == Some(caller),
            r is Err ==> r == Err::<(), Error>(Error::NotAuthorized),
    {
        match self.admin {
            Some(a) if a == caller => Ok(()),
            _ => Err(Error::NotAuthorized),
        }
    }

    fn find_depositor(&self, user: u64) -> (r: Option<usize>)
        ensures
            match r {
                Some(i) => i < self.depositors@.len() && self.depositors@[i as int].0 == user,
                None => !registered(self.depositors@, user),
            },
    {
        let n = self.depositors.len();
        let mut i: usize = 0;
        while i < n
            invariant
                i <= n,
                n == self.depositors@.len(),
                forall|j: int| 0 <= j < i ==> (#[trigger] self.depositors@[j]).0 != user,
            decreases n - i,
        {
            if self.depositors[i].0 == user {
                return Some(i);
            }
            i = i + 1;
        }
        None
    }

    /// Registers a deposit and pulls the amount from the participant's
    /// ledger balance into the pool.  The amount must be a positive
    /// transferable quantity: a zero deposit is rejected before any ledger
    /// call.  A participant can deposit at most once; the registry entry and
    /// the ledger pull take effect together or not at all, so a failed pull
    /// never leaves a record for value that was never received.  On success
    /// the recorded total and the pool balance grow by exactly the same
    /// amount.  The pool's own account cannot enrol: a pull from it would
    /// move nothing, so the ledger rejects it.
    pub fn deposit(&mut self, ledger: &mut Ledger, user: u64, amount: u64) -> (r: Result<
        (),
        Error,
    >)
        requires
            old(self).wf(),
            old(ledger).wf(),
            old(self).is_initialized(),
        ensures
            final(self).wf(),
            final(ledger).wf(),
            r is Ok <==> {
                &&& !registered(old(self).records(), user)
                &&& amount > 0
                &&& old(self).deposits_total() + amount <= u64::MAX
                &&& user != old(self).pool_account()
                &&& old(ledger).balance_of(user) >= amount
            },
            r is Err ==> *final(self) == *old(self) && *final(ledger) == *old(ledger),
            registered(old(self).records(), user) ==> r == Err::<(), Error>(
                Error::DuplicateDeposit,
            ),
            !registered(old(self).records(), user) && amount == 0 ==> r == Err::<(), Error>(
                Error::LedgerOperationFailed,
            ),
            !registered(old(self).records(), user) && amount > 0 && old(self).deposits_total()
                + amount > u64::MAX ==> r == Err::<(), Error>(Error::ArithmeticOverflow),
            !registered(old(self).records(), user) && amount > 0 && old(self).deposits_total()
                + amount <= u64::MAX && (user == old(self).pool_account() || old(
                ledger,
            ).balance_of(user) < amount) ==> r == Err::<(), Error>(Error::LedgerOperationFailed),
            r is Ok ==> final(self).records() == old(self).records().push(
                (user, Depositor { deposit: amount, attended: false }),
            ),
            r is Ok ==> final(self).deposits_total() == old(self).deposits_total() + amount,
            r is Ok ==> final(ledger).balance_of(user) == old(ledger).balance_of(user) - amount,
            r is Ok ==> final(ledger).balance_of(old(self).pool_account()) == old(
                ledger,
            ).balance_of(old(self).pool_account()) + amount,
            r is Ok ==> forall|x: u64|
                x != user && x != old(self).pool_account() ==> #[trigger] final(ledger).balance_of(
                    x,
                ) == old(ledger).balance_of(x),
            r is Ok ==> final(ledger).total_supply() == old(ledger).total_supply(),
            final(self).admin() == old(self).admin(),
            final(self).token() == old(self).token(),
            final(self).pool_account() == old(self).pool_account(),
            final(self).attended_total() == old(self).attended_total(),
    {
        if self.find_depositor(user).is_some() {
            return Err(Error::DuplicateDeposit);
        }
        if amount == 0 {
            return Err(Error::LedgerOperationFailed);
        }
        let new_total = match self.total_deposits.checked_add(amount) {
            Some(t) => t,
            None => {
                return Err(Error::ArithmeticOverflow);
            }
        };
        match ledger.transfer(user, self.contract_id, amount) {
            Ok(()) => {}
            Err(_) => {
                return Err(Error::LedgerOperationFailed);
            }
        }
        let ghost s0 = self.depositors@;
        self.depositors.push((user, Depositor { deposit: amount, attended: false }));
        self.total_deposits = new_total;
        proof {
            crate::registry::lemma_sum_deposits_push(s0, user, amount);
            crate::registry::lemma_count_attended_push(s0, user, amount);
            assert(self.depositors@.drop_last() =~= s0);
        }
        Ok(())
    }

    /// Marks a registered participant as eligible.  Admin-only.  The flag
    /// only ever goes from false to true, and the attendance counter is
    /// raised exactly on that transition, so repeated calls for the same
    /// participant succeed without inflating the count.
    pub fn attended(&mut self, caller: u64, user: u64) -> (r: Result<(), Error>)
        requires
            old(self).wf(),
            old(self).is_initialized(),
        ensures
            final(self).wf(),
            r is Ok <==> {
                &&& old(self).admin() == Some(caller)
                &&& registered(old(self).records(), user)
                &&& (attended_flag(old(self).records(), user) || old(self).attended_total()
                    < u32::MAX)
            },
            r is Err ==> *final(self) == *old(self),
            old(self).admin() != Some(caller) ==> r == Err::<(), Error>(Error::NotAuthorized),
            old(self).admin() == Some(caller) && !registered(old(self).records(), user) ==> r
                == Err::<(), Error>(Error::UnknownParticipant),
            old(self).admin() == Some(caller) && registered(old(self).records(), user)
                && !attended_flag(old(self).records(), user) && old(self).attended_total()
                == u32::MAX ==> r == Err::<(), Error>(Error::ArithmeticOverflow),
            r is Ok ==> final(self).records().len() == old(self).records().len(),
            r is Ok ==> forall|j: int|
                0 <= j < old(self).records().len() ==> (#[trigger] final(self).records()[j]).0
                    == old(self).records()[j].0 && final(self).records()[j].1.deposit == old(
                    self,
                ).records()[j].1.deposit,
            r is Ok ==> forall|j: int|
                0 <= j < old(self).records().len() && (#[trigger] old(self).records()[j]).0 != user
                    ==> final(self).records()[j].1.attended == old(
                    self,
                ).records()[j].1.attended,
            r is Ok ==> forall|j: int|
                0 <= j < old(self).records().len() && (#[trigger] old(self).records()[j]).0 == user
                    ==> final(self).records()[j].1.attended,
            r is Ok ==> final(self).attended_total() == old(self).attended_total() + (
            if attended_flag(old(self).records(), user) {
                0int
            } else {
                1int
            }),
            final(self).admin() == old(self).admin(),
            final(self).token() == old(self).token(),
            final(self).pool_account() == old(self).pool_account(),
            final(self).deposits_total() == old(self).deposits_total(),
    {
        if self.check_admin(caller).is_err() {
            return Err(Error::NotAuthorized);
        }
        let idx = match self.find_depositor(user) {
            Some(i) => i,
            None => {
                return Err(Error::UnknownParticipant);
            }
        };
        let rec = self.depositors[idx].1;
        if rec.attended {
            proof {
                assert(attended_flag(self.depositors@, user));
            }
            return Ok(());
        }
        proof {
            assert forall|j: int|
                0 <= j < self.depositors@.len() && (#[trigger] self.depositors@[j]).0
                    == user implies j == idx as int by {}
            assert(!attended_flag(self.depositors@, user));
            crate::registry::lemma_count_attended_update(
                self.depositors@,
                idx as int,
                (user, Depositor { deposit: rec.deposit, attended: true }),
            );
        }
        let new_count = match self.attended_count.checked_add(1) {
            Some(c) => c,
            None => {
                return Err(Error::ArithmeticOverflow);
            }
        };
        self.depositors[idx] = (user, Depositor { deposit: rec.deposit, attended: true });
        self.attended_count = new_count;
        Ok(())
    }

    /// Pays each attended participant the pool balance divided by the
    /// attendance count, rounded down.  Admin-only; fails when no
    /// participant is eligible.  Non-eligible participants receive nothing,
    /// the total disbursed never exceeds the pool balance, and the division
    /// remainder is deliberately left in the pool for a later round.
    /// Participants are paid in registry insertion order.
    #[verifier::loop_isolation(false)]
    pub fn distribute(&self, ledger: &mut Ledger, caller: u64) -> (r: Result<(), Error>)
        requires
            self.wf(),
            old(ledger).wf(),
            self.is_initialized(),
        ensures
            final(ledger).wf(),
            r is Ok <==> self.admin() == Some(caller) && self.attended_total() > 0,
            r is Err ==> *final(ledger) == *old(ledger),
            self.admin() != Some(caller) ==> r == Err::<(), Error>(Error::NotAuthorized),
            self.admin() == Some(caller) && self.attended_total() == 0 ==> r == Err::<(), Error>(
                Error::NoEligibleParticipants,
            ),
            r is Ok ==> forall|j: int|
                0 <= j < self.records().len() && (#[trigger] self.records()[j]).1.attended
                    ==> final(ledger).balance_of(self.records()[j].0) == old(ledger).balance_of(
                    self.records()[j].0,
                ) + old(ledger).balance_of(self.pool_account()) / self.attended_total(),
            r is Ok ==> forall|j: int|
                0 <= j < self.records().len() && !(#[trigger] self.records()[j]).1.attended
                    ==> final(ledger).balance_of(self.records()[j].0) == old(ledger).balance_of(
                    self.records()[j].0,
                ),
            r is Ok ==> final(ledger).balance_of(self.pool_account()) == old(ledger).balance_of(
                self.pool_account(),
            ) % self.attended_total(),
            r is Ok ==> self.attended_total() * (old(ledger).balance_of(self.pool_account())
                / self.attended_total()) <= old(ledger).balance_of(self.pool_account()),
            r is Ok ==> forall|x: u64|
                x != self.pool_account() && !registered(self.records(), x)
                    ==> #[trigger] final(ledger).balance_of(x) == old(ledger).balance_of(x),
            final(ledger).total_supply() == old(ledger).total_supply(),
    {
        if self.check_admin(caller).is_err() {
            return Err(Error::NotAuthorized);
        }
        if self.attended_count == 0 {
            return Err(Error::NoEligibleParticipants);
        }
        let k: u64 = self.attended_count as u64;
        let b: u64 = ledger.balance(self.contract_id);
        let share: u64 = b / k;
        let ghost l0 = *ledger;
        let ghost recs = self.depositors@;
        let ghost kk = self.attended_count as int;
        let ghost sh = share as int;
        proof {
            lemma_share_arithmetic(b as int, kk);
        }
        let n = self.depositors.len();
        let mut i: usize = 0;
        while i < n
            invariant
                i <= n,
                ledger.wf(),
                ledger.total_supply() == l0.total_supply(),
                ledger.balance_of(self.contract_id) == b - count_attended(
                    recs.take(i as int),
                ) * sh,
                forall|j: int|
                    0 <= j < i && (#[trigger] recs[j]).1.attended ==> ledger.balance_of(recs[j].0)
                        == l0.balance_of(recs[j].0) + sh,
                forall|j: int|
                    0 <= j < i && !(#[trigger] recs[j]).1.attended ==> ledger.balance_of(recs[j].0)
                        == l0.balance_of(recs[j].0),
                forall|j: int|
                    i <= j < n ==> ledger.balance_of((#[trigger] recs[j]).0) == l0.balance_of(
                        recs[j].0,
                    ),
                forall|x: u64|
                    x != self.contract_id && !registered(recs, x) ==> #[trigger] ledger.balance_of(
                        x,
                    ) == l0.balance_of(x),
            decreases n - i,
        {
            let p = self.depositors[i];
            let ghost c = count_attended(recs.take(i as int));
            proof {
                lemma_count_take_succ(recs, i as int);
            }
            if p.1.attended {
                proof {
                    lemma_count_take_le(recs, i as int + 1);
                    lemma_mul_inequality(c + 1, kk, sh);
                    assert((c + 1) * sh == c * sh + sh) by (nonlinear_arith);
                }
                let res = ledger.transfer(self.contract_id, p.0, share);
                match res {
                    Ok(()) => {}
                    Err(_) => {
                        proof {
                            assert(false);
                        }
                        return Err(Error::LedgerOperationFailed);
                    }
                }
                proof {
                    assert forall|j: int|
                        0 <= j < n && j != i as int implies (#[trigger] recs[j]).0
                            != recs[i as int].0 by {}
                }
            }
            i = i + 1;
        }
        proof {
            assert(recs.take(n as int) =~= recs);
        }
        Ok(())
    }

    /// Pays every participant back exactly the recorded deposit, regardless
    /// of attendance, in registry insertion order.  Admin-only.  When the
    /// pool cannot cover the recorded total the whole call fails before any
    /// transfer is made, so no partial refund is ever observable.
    #[verifier::loop_isolation(false)]
    pub fn refund(&self, ledger: &mut Ledger, caller: u64) -> (r: Result<(), Error>)
        requires
            self.wf(),
            old(ledger).wf(),
            self.is_initialized(),
        ensures
            final(ledger).wf(),
            r is Ok <==> self.admin() == Some(caller) && old(ledger).balance_of(
                self.pool_account(),
            ) >= self.deposits_total(),
            r is Err ==> *final(ledger) == *old(ledger),
            self.admin() != Some(caller) ==> r == Err::<(), Error>(Error::NotAuthorized),
            self.admin() == Some(caller) && old(ledger).balance_of(self.pool_account())
                < self.deposits_total() ==> r == Err::<(), Error>(Error::LedgerOperationFailed),
            r is Ok ==> forall|j: int|
                0 <= j < self.records().len() ==> final(ledger).balance_of(
                    (#[trigger] self.records()[j]).0,
                ) == old(ledger).balance_of(self.records()[j].0) + self.records()[j].1.deposit,
            r is Ok ==> final(ledger).balance_of(self.pool_account()) == old(ledger).balance_of(
                self.pool_account(),
            ) - self.deposits_total(),
            r is Ok ==> forall|x: u64|
                x != self.pool_account() && !registered(self.records(), x)
                    ==> #[trigger] final(ledger).balance_of(x) == old(ledger).balance_of(x),
            final(ledger).total_supply() == old(ledger).total_supply(),
    {
        if self.check_admin(caller).is_err() {
            return Err(Error::NotAuthorized);
        }
        let b: u64 = ledger.balance(self.contract_id);
        if b < self.total_deposits {
            return Err(Error::LedgerOperationFailed);
        }
        let ghost l0 = *ledger;
        let ghost recs = self.depositors@;
        let n = self.depositors.len();
        let mut i: usize = 0;
        while i < n
            invariant
                i <= n,
                ledger.wf(),
                ledger.total_supply() == l0.total_supply(),
                ledger.balance_of(self.contract_id) == b - sum_deposits(recs.take(i as int)),
                forall|j: int|
                    0 <= j < i ==> ledger.balance_of((#[trigger] recs[j]).0) == l0.balance_of(
                        recs[j].0,
                    ) + recs[j].1.deposit,
                forall|j: int|
                    i <= j < n ==> ledger.balance_of((#[trigger] recs[j]).0) == l0.balance_of(
                        recs[j].0,
                    ),
                forall|x: u64|
                    x != self.contract_id && !registered(recs, x) ==> #[trigger] ledger.balance_of(
                        x,
                    ) == l0.balance_of(x),
            decreases n - i,
        {
            let p = self.depositors[i];
            proof {
                lemma_sum_take_succ(recs, i as int);
                lemma_sum_take_le(recs, i as int + 1);
            }
            let res = ledger.transfer(self.contract_id, p.0, p.1.deposit);
            match res {
                Ok(()) => {}
                Err(_) => {
                    proof {
                        assert(false);
                    }
                    return Err(Error::LedgerOperationFailed);
                }
            }
            proof {
                assert forall|j: int|
                    0 <= j < n && j != i as int implies (#[trigger] recs[j]).0
                        != recs[i as int].0 by {}
            }
            i = i + 1;
        }
        proof {
            assert(recs.take(n as int) =~= recs);
        }
        Ok(())
    }

    /// The number of participants currently marked attended.
    pub fn get_attended(&self) -> (r: u32)
        ensures
            r as int == self.attended_total(),
    {
        self.attended_count
    }

    /// The stored token ledger reference.
    pub fn get_token(&self) -> (t: u64)
        requires
            self.wf(),
            self.is_initialized(),
        ensures
            self.token() == Some(t),
    {
        match self.token {
            Some(t) => t,
            None => {
                proof {
                    assert(false);
                }
                0
            }
        }
    }

    /// A copy of the registry: every participant with its record, in
    /// insertion order.
    pub fn get_depositors(&self) -> (v: Vec<(u64, Depositor)>)
        ensures
            v@ == self.records(),
    {
        let mut v: Vec<(u64, Depositor)> = Vec::new();
        let n = self.depositors.len();
        let mut i: usize = 0;
        while i < n
            invariant
                i <= n,
                n == self.depositors@.len(),
                v@ == self.depositors@.take(i as int),
            decreases n - i,
        {
            v.push(self.depositors[i]);
            proof {
                assert(v@ =~= self.depositors@.take(i as int + 1));
            }
            i = i + 1;
        }
        proof {
            assert(self.depositors@.take(n as int) =~= self.depositors@);
        }
        v
    }

    /// Whether the given persisted slot currently holds data: an
    /// administrator or token reference once stored, a registry once the
    /// first deposit is recorded, an attendance count once the first
    /// attendee is seen.
    pub fn has(&self, key: DataKey) -> (r: bool)
        ensures
            r == match key {
                DataKey::Admin => self.admin() is Some,
                DataKey::Token => self.token() is Some,
                DataKey::Depositors => self.records().len() > 0,
                DataKey::Attended => self.attended_total() > 0,
            },
    {
        match key {
            DataKey::Admin => self.admin.is_some(),
            DataKey::Token => self.token.is_some(),
            DataKey::Depositors => self.depositors.len() > 0,
            DataKey::Attended => self.attended_count > 0,
        }
    }
}

} // verus!
