//! Laws of the ledger that relate several operations, proved over the model.

use vstd::prelude::*;
use crate::decimal::Decimal;
use crate::ledger::{Holding, LedgerModel, LendingError, Loan, PartyId};

verus! {

/// Some origination takes `before` to `after`.
pub open spec fn lend_step(before: LedgerModel, after: LedgerModel) -> bool {
    exists|b: PartyId, a: Decimal, r: Decimal, d: u8, l: PartyId, f: Holding, t: u64|
        #[trigger] before.lend(b, a, r, d, l, f, t) == Ok::<LedgerModel, LendingError>(after)
}

/// Some repayment takes `before` to `after`.
pub open spec fn repay_step(before: LedgerModel, after: LedgerModel) -> bool {
    exists|id: u128, p: Holding, t: u64|
        #[trigger] before.repay(id, p, t) is Ok && before.repay(id, p, t)->Ok_0.0 == after
}

/// A successful origination hands out `next_id()`, raises it by one and
/// keeps every earlier record as it was.
pub proof fn lemma_lend_advances(before: LedgerModel, after: LedgerModel)
    requires
        lend_step(before, after),
    ensures
        after.next_id() == before.next_id() + 1,
        after.loans.take(before.loans.len() as int) == before.loans,
        !after.loans[before.loans.len() as int].is_repaid,
{
    let (b, a, r, d, l, f, t) = choose|
        b: PartyId,
        a: Decimal,
        r: Decimal,
        d: u8,
        l: PartyId,
        f: Holding,
        t: u64,
    | #[trigger] before.lend(b, a, r, d, l, f, t) == Ok::<LedgerModel, LendingError>(after);
    assert(after.loans == before.loans.push(
        Loan {
            lender: l,
            borrower: b,
            amount: a,
            interest_rate_per_month: r,
            duration_in_months: d,
            start_time: t,
            is_repaid: false,
        },
    ));
    assert(after.loans.take(before.loans.len() as int) =~= before.loans);
}

/// Along any run of successful originations the identifiers handed out are
/// consecutive: the `k`-th call (counting from zero) receives
/// `states[0].next_id() + k`, so no two calls receive the same one.
pub proof fn lemma_originations_consecutive(states: Seq<LedgerModel>)
    requires
        forall|k: int| 0 <= k < states.len() - 1 ==> lend_step(#[trigger] states[k], states[k + 1]),
    ensures
        forall|k: int|
            0 <= k < states.len() ==> #[trigger] states[k].next_id() == states[0].next_id() + k,
    decreases states.len(),
{
    if states.len() > 1 {
        let shorter = states.drop_last();
        assert forall|k: int| 0 <= k < shorter.len() - 1 implies lend_step(
            #[trigger] shorter[k],
            shorter[k + 1],
        ) by {
            assert(shorter[k] == states[k] && shorter[k + 1] == states[k + 1]);
            assert(lend_step(states[k], states[k + 1]));
        }
        lemma_originations_consecutive(shorter);
        let n = states.len() - 1;
        assert(lend_step(states[n - 1], states[n]));
        lemma_lend_advances(states[n - 1], states[n]);
        assert forall|k: int| 0 <= k < states.len() implies #[trigger] states[k].next_id()
            == states[0].next_id() + k by {
            if k < n {
                assert(shorter[k] == states[k]);
            } else {
                assert(shorter[n - 1] == states[n - 1]);
            }
        }
    }
}

/// After a successful repayment the loan reads as repaid, and any further
/// repayment of it fails with `AlreadyRepaid`, whatever is paid and whenever.
pub proof fn lemma_repay_is_terminal(
    m: LedgerModel,
    id: u128,
    payment: Holding,
    now: u64,
    again: Holding,
    later: u64,
)
    requires
        m.repay(id, payment, now) is Ok,
    ensures
        match m.repay(id, payment, now) {
            Ok((after, _)) => {
                &&& after.get(id) is Some
                &&& after.loans[id as int].is_repaid
                &&& after.repay(id, again, later) == Err::<(LedgerModel, int), LendingError>(
                    LendingError::AlreadyRepaid,
                )
            },
            Err(_) => true,
        },
{
}

/// A repaid record never changes again: no origination and no repayment
/// alters it.
pub proof fn lemma_repaid_record_frozen(before: LedgerModel, after: LedgerModel, id: u128)
    requires
        before.get(id) matches Some(loan) && loan.is_repaid,
        lend_step(before, after) || repay_step(before, after),
    ensures
        after.get(id) == before.get(id),
{
    if lend_step(before, after) {
        lemma_lend_advances(before, after);
        assert(after.loans[id as int] == after.loans.take(before.loans.len() as int)[id as int]);
    } else {
        let (rid, p, t) = choose|rid: u128, p: Holding, t: u64|
            #[trigger] before.repay(rid, p, t) is Ok && before.repay(rid, p, t)->Ok_0.0 == after;
        assert(rid != id);
    }
}

/// Repaying at the instant of origination costs exactly the principal: no
/// interest accrues, a payment falls short exactly when it is below the
/// principal, and a settled repayment settles the principal.
pub proof fn lemma_zero_elapsed_repayment(m: LedgerModel, id: u128, payment: Holding)
    requires
        m.wf(),
        id < m.loans.len(),
        !m.loans[id as int].is_repaid,
    ensures
        m.loans[id as int].due_at(m.loans[id as int].start_time) == Some(
            m.loans[id as int].amount.attos as int,
        ),
        m.repay(id, payment, m.loans[id as int].start_time) == Err::<(LedgerModel, int), LendingError>(
            LendingError::InsufficientPayment,
        ) <==> payment.amount.attos < m.loans[id as int].amount.attos,
        m.repay(id, payment, m.loans[id as int].start_time) matches Ok((_, due)) ==> due
            == m.loans[id as int].amount.attos,
{
    let loan = m.loans[id as int];
    assert(loan.duration_in_months >= 1);
    let d = loan.duration_in_months as int;
    assert(0int / (30 * d) == 0) by (nonlinear_arith)
        requires
            d >= 1,
    ;
}

/// An identifier at or past `next_id()` names no loan: repayment fails with
/// `NotFound` and the query finds nothing.
pub proof fn lemma_unknown_id(m: LedgerModel, id: u128, payment: Holding, now: u64)
    requires
        id >= m.next_id(),
    ensures
        m.repay(id, payment, now) == Err::<(LedgerModel, int), LendingError>(LendingError::NotFound),
        m.get(id) is None,
{
}

} // verus!
