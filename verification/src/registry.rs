//! The deposit registry's record type and the specification functions and
//! lemmas that the contract's invariants and payout proofs are built on.
//!
//! A registry is a sequence of `(participant, Depositor)` pairs kept in
//! insertion order, with every participant appearing at most once.

use vstd::prelude::*;

verus! {

/// One participant's record: the amount deposited and whether the
/// administrator has marked the participant as eligible.
#[derive(Clone, Copy, PartialEq, Eq, Structural, Debug)]
pub struct Depositor {
    pub deposit: u64,
    pub attended: bool,
}

/// No participant appears twice in the registry.
pub open spec fn distinct_participants(s: Seq<(u64, Depositor)>) -> bool {
    forall|i: int, j: int| 0 <= i < j < s.len() ==> s[i].0 != s[j].0
}

/// Whether `id` has a record in the registry.
pub open spec fn registered(s: Seq<(u64, Depositor)>, id: u64) -> bool {
    exists|i: int| 0 <= i < s.len() && s[i].0 == id
}

/// Whether `id` has a record marked attended.
pub open spec fn attended_flag(s: Seq<(u64, Depositor)>, id: u64) -> bool {
    exists|i: int| 0 <= i < s.len() && s[i].0 == id && s[i].1.attended
}

/// The number of records marked attended.
pub open spec fn count_attended(s: Seq<(u64, Depositor)>) -> int
    decreases s.len(),
{
    if s.len() == 0 {
        0
    } else {
        count_attended(s.drop_last()) + if s.last().1.attended {
            1int
        } else {
            0int
        }
    }
}

/// The sum of all recorded deposit amounts.
pub open spec fn sum_deposits(s: Seq<(u64, Depositor)>) -> int
    decreases s.len(),
{
    if s.len() == 0 {
        0
    } else {
        sum_deposits(s.drop_last()) + s.last().1.deposit
    }
}

/// Appending a fresh record adds exactly its amount to the recorded total.
/// This is the step that keeps the recorded sum equal to the cumulative
/// value pulled into the pool: each successful deposit grows both by the
/// same amount.
pub proof fn lemma_sum_deposits_push(s: Seq<(u64, Depositor)>, user: u64, amount: u64)
    ensures
        sum_deposits(s.push((user, Depositor { deposit: amount, attended: false })))
            == sum_deposits(s) + amount,
{
    assert(s.push((user, Depositor { deposit: amount, attended: false })).drop_last() =~= s);
}

/// Appending a record not marked attended leaves the attended count alone.
pub proof fn lemma_count_attended_push(s: Seq<(u64, Depositor)>, user: u64, amount: u64)
    ensures
        count_attended(s.push((user, Depositor { deposit: amount, attended: false })))
            == count_attended(s),
{
    assert(s.push((user, Depositor { deposit: amount, attended: false })).drop_last() =~= s);
}

/// Marking the record at `i` attended, deposit unchanged, raises the
/// attended count by one exactly when the flag was previously false.
pub proof fn lemma_count_attended_update(s: Seq<(u64, Depositor)>, i: int, v: (u64, Depositor))
    requires
        0 <= i < s.len(),
        v.1.deposit == s[i].1.deposit,
    ensures
        count_attended(s.update(i, v)) == count_attended(s)
            + (if v.1.attended { 1int } else { 0int })
            - (if s[i].1.attended { 1int } else { 0int }),
        sum_deposits(s.update(i, v)) == sum_deposits(s),
    decreases s.len(),
{
    if i == s.len() - 1 {
        assert(s.update(i, v).drop_last() =~= s.drop_last());
    } else {
        assert(s.update(i, v).drop_last() =~= s.drop_last().update(i, v));
        lemma_count_attended_update(s.drop_last(), i, v);
    }
}

/// The attended count of a prefix grows by the flag of the next record.
pub proof fn lemma_count_take_succ(s: Seq<(u64, Depositor)>, i: int)
    requires
        0 <= i < s.len(),
    ensures
        count_attended(s.take(i + 1)) == count_attended(s.take(i))
            + (if s[i].1.attended { 1int } else { 0int }),
{
    assert(s.take(i + 1).drop_last() =~= s.take(i));
    assert(s.take(i + 1).last() == s[i]);
}

/// The attended count of a prefix never exceeds that of the whole registry.
pub proof fn lemma_count_take_le(s: Seq<(u64, Depositor)>, i: int)
    requires
        0 <= i <= s.len(),
    ensures
        count_attended(s.take(i)) <= count_attended(s),
    decreases s.len() - i,
{
    if i < s.len() {
        lemma_count_take_succ(s, i);
        lemma_count_take_le(s, i + 1);
        assert(s.take(s.len() as int) =~= s);
    } else {
        assert(s.take(i) =~= s);
    }
}

/// The deposit sum of a prefix grows by the amount of the next record.
pub proof fn lemma_sum_take_succ(s: Seq<(u64, Depositor)>, i: int)
    requires
        0 <= i < s.len(),
    ensures
        sum_deposits(s.take(i + 1)) == sum_deposits(s.take(i)) + s[i].1.deposit,
{
    assert(s.take(i + 1).drop_last() =~= s.take(i));
    assert(s.take(i + 1).last() == s[i]);
}

/// The deposit sum of a prefix never exceeds the sum over the whole registry.
pub proof fn lemma_sum_take_le(s: Seq<(u64, Depositor)>, i: int)
    requires
        0 <= i <= s.len(),
    ensures
        sum_deposits(s.take(i)) <= sum_deposits(s),
    decreases s.len() - i,
{
    if i < s.len() {
        lemma_sum_take_succ(s, i);
        lemma_sum_take_le(s, i + 1);
    } else {
        assert(s.take(i) =~= s);
    }
}

} // verus!
