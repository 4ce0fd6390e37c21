//! The loan ledger: loan records under consecutive identifiers, one custody
//! account per lender, and the three operations that act on them.

use vstd::prelude::*;
use crate::decimal::{Decimal, total_due, total_due_spec};

verus! {

/// Clock units in one accrual period.
pub const PERIOD_LENGTH: u64 = 30;

/// A party (lender or borrower), as the 30 bytes of its address packed
/// big-endian into two words.
#[derive(Clone, Copy, Debug, PartialEq, Eq, Structural)]
pub struct PartyId {
    pub high: u128,
    pub low: u128,
}

/// A fungible resource type, as the 30 bytes of its address packed
/// big-endian into two words.
#[derive(Clone, Copy, Debug, PartialEq, Eq, Structural)]
pub struct ResourceId {
    pub high: u128,
    pub low: u128,
}

/// An amount of one fungible resource, handed over by value.
#[derive(Debug, PartialEq, Eq, Structural)]
pub struct Holding {
    pub resource: ResourceId,
    pub amount: Decimal,
}

/// The terms of one loan and whether it has been repaid.
#[derive(Clone, Copy, Debug, PartialEq, Eq, Structural)]
pub struct Loan {
    pub lender: PartyId,
    pub borrower: PartyId,
    pub amount: Decimal,
    pub interest_rate_per_month: Decimal,
    pub duration_in_months: u8,
    pub start_time: u64,
    pub is_repaid: bool,
}

/// A lender's custody account: one resource type and the balance held.
#[derive(Clone, Copy, Debug, PartialEq, Eq, Structural)]
pub struct CustodyAccount {
    pub resource: ResourceId,
    pub balance: Decimal,
}

/// Why an operation was refused; a refused operation changes nothing.
#[derive(Clone, Copy, Debug, PartialEq, Eq, Structural)]
pub enum LendingError {
    NotFound,
    AlreadyRepaid,
    InsufficientPayment,
    CustodyTypeMismatch,
    ArithmeticOverflow,
}

/// A failed operation: why, and the holding handed back untouched.
#[derive(Debug, PartialEq, Eq, Structural)]
pub struct Refusal {
    pub error: LendingError,
    pub holding: Holding,
}

/// The ledger as mathematics: loan `i` is `loans[i]`, so the next
/// identifier is `loans.len()`.
pub struct LedgerModel {
    pub loans: Seq<Loan>,
    pub custody: Map<PartyId, CustodyAccount>,
}

/// Whole accrual periods in `elapsed` clock units for a loan of `duration`.
pub open spec fn periods_spec(elapsed: int, duration: int) -> int {
    elapsed / (PERIOD_LENGTH * duration)
}

/// Whole accrual periods in `elapsed` clock units for a loan that runs
/// `duration` months: `elapsed / (PERIOD_LENGTH * duration)`, rounded down.
pub fn periods_elapsed(elapsed: u64, duration: u8) -> (r: u64)
    requires
        duration >= 1,
    ensures
        r as int == periods_spec(elapsed as int, duration as int),
{
    elapsed / (PERIOD_LENGTH * (duration as u64))
}

impl Loan {
    /// What repaying at time `now` costs, in attos; `None` on overflow.
    pub open spec fn due_at(self, now: u64) -> Option<int> {
        total_due_spec(
            self.amount.attos as int,
            self.interest_rate_per_month.attos as int,
            periods_spec(now - self.start_time, self.duration_in_months as int) as nat,
        )
    }
}

impl LedgerModel {
    pub open spec fn wf(self) -> bool {
        forall|i: int|
            0 <= i < self.loans.len() ==> {
                &&& (#[trigger] self.loans[i]).amount.attos > 0
                &&& self.loans[i].duration_in_months >= 1
                &&& self.custody.contains_key(self.loans[i].lender)
            }
    }

    pub open spec fn next_id(self) -> nat {
        self.loans.len()
    }

    pub open spec fn get(self, id: u128) -> Option<Loan> {
        if id < self.loans.len() {
            Some(self.loans[id as int])
        } else {
            None
        }
    }

    /// A repayment at `now` subtracts no later time from an earlier one.
    pub open spec fn clock_ok(self, id: u128, now: u64) -> bool {
        id < self.loans.len() ==> self.loans[id as int].start_time <= now
    }

    /// The lender's account after `amount` of `resource` comes in.
    pub open spec fn deposit(self, lender: PartyId, resource: ResourceId, amount: int) -> Result<
        CustodyAccount,
        LendingError,
    > {
        if self.custody.contains_key(lender) {
            let acct = self.custody[lender];
            if acct.resource != resource {
                Err(LendingError::CustodyTypeMismatch)
            } else if acct.balance.attos + amount > u128::MAX {
                Err(LendingError::ArithmeticOverflow)
            } else {
                Ok(
                    CustodyAccount {
                        resource,
                        balance: Decimal { attos: (acct.balance.attos + amount) as u128 },
                    },
                )
            }
        } else {
            Ok(CustodyAccount { resource, balance: Decimal { attos: amount as u128 } })
        }
    }

    /// Origination: the new loan takes identifier `next_id()`.
    pub open spec fn lend(
        self,
        borrower: PartyId,
        amount: Decimal,
        rate: Decimal,
        duration: u8,
        lender: PartyId,
        funds: Holding,
        now: u64,
    ) -> Result<LedgerModel, LendingError> {
        match self.deposit(lender, funds.resource, funds.amount.attos as int) {
            Err(e) => Err(e),
            Ok(acct) => Ok(
                LedgerModel {
                    loans: self.loans.push(
                        Loan {
                            lender,
                            borrower,
                            amount,
                            interest_rate_per_month: rate,
                            duration_in_months: duration,
                            start_time: now,
                            is_repaid: false,
                        },
                    ),
                    custody: self.custody.insert(lender, acct),
                },
            ),
        }
    }

    /// Repayment: the new ledger and the total due that was settled.
    pub open spec fn repay(self, id: u128, payment: Holding, now: u64) -> Result<
        (LedgerModel, int),
        LendingError,
    > {
        if id >= self.loans.len() {
            Err(LendingError::NotFound)
        } else {
            let loan = self.loans[id as int];
            if loan.is_repaid {
                Err(LendingError::AlreadyRepaid)
            } else {
                match loan.due_at(now) {
                    None => Err(LendingError::ArithmeticOverflow),
                    Some(due) => if payment.amount.attos < due {
                        Err(LendingError::InsufficientPayment)
                    } else {
                        match self.deposit(loan.lender, payment.resource, due) {
                            Err(e) => Err(e),
                            Ok(acct) => Ok(
                                (
                                    LedgerModel {
                                        loans: self.loans.update(
                                            id as int,
                                            Loan {
                                                lender: loan.lender,
                                                borrower: loan.borrower,
                                                amount: loan.amount,
                                                interest_rate_per_month:
                                                    loan.interest_rate_per_month,
                                                duration_in_months: loan.duration_in_months,
                                                start_time: loan.start_time,
                                                is_repaid: true,
                                            },
                                        ),
                                        custody: self.custody.insert(loan.lender, acct),
                                    },
                                    due,
                                ),
                            ),
                        }
                    },
                }
            }
        }
    }
}

/// The lending engine: loans, the identifier counter and the custody accounts.
pub struct LendingBorrowing {
    loans: Vec<Loan>,
    loan_count: u128,
    lender_vault: Vec<(PartyId, CustodyAccount)>,
    custody: Ghost<Map<PartyId, CustodyAccount>>,
}

impl View for LendingBorrowing {
    type V = LedgerModel;

    closed spec fn view(&self) -> LedgerModel {
        LedgerModel { loans: self.loans@, custody: self.custody@ }
    }
}

impl LendingBorrowing {
    pub closed spec fn wf(&self) -> bool {
        &&& self@.wf()
        &&& self.loan_count as int == self.loans@.len()
        &&& forall|i: int, j: int|
            #![trigger self.lender_vault@[i], self.lender_vault@[j]]
            0 <= i < j < self.lender_vault@.len() ==> self.lender_vault@[i].0
                != self.lender_vault@[j].0
        &&& forall|i: int|
            0 <= i < self.lender_vault@.len() ==> {
                &&& self.custody@.contains_key((#[trigger] self.lender_vault@[i]).0)
                &&& self.custody@[self.lender_vault@[i].0] == self.lender_vault@[i].1
            }
        &&& forall|p: PartyId|
            #[trigger] self.custody@.contains_key(p) ==> exists|i: int|
                0 <= i < self.lender_vault@.len() && (#[trigger] self.lender_vault@[i]).0 == p
    }

    /// An empty ledger.
    pub fn instantiate_lending_borrowing() -> (r: LendingBorrowing)
        ensures
            r.wf(),
            r@.loans.len() == 0,
            r@.custody.is_empty(),
    {
        LendingBorrowing {
            loans: Vec::new(),
            loan_count: 0,
            lender_vault: Vec::new(),
            custody: Ghost(Map::empty()),
        }
    }

    /// The slot of `lender`'s account, if it has one.
    fn find_vault(&self, lender: PartyId) -> (r: Option<usize>)
        requires
            self.wf(),
        ensures
            match r {
                Some(i) => i < self.lender_vault@.len() && self.lender_vault@[i as int].0 == lender,
                None => !self@.custody.contains_key(lender),
            },
    {
        let mut i: usize = 0;
        while i < self.lender_vault.len()
            invariant
                i <= self.lender_vault@.len(),
                forall|k: int| 0 <= k < i ==> (#[trigger] self.lender_vault@[k]).0 != lender,
            decreases self.lender_vault@.len() - i,
        {
            if self.lender_vault[i].0 == lender {
                return Some(i);
            }
            i = i + 1;
        }
        None
    }

    /// Works out a deposit into `lender`'s account without making it.
    fn plan_deposit(&self, lender: PartyId, resource: ResourceId, amount: u128) -> (r: Result<
        (Option<usize>, CustodyAccount),
        LendingError,
    >)
        requires
            self.wf(),
        ensures
            match r {
                Ok((slot, acct)) => {
                    &&& self@.deposit(lender, resource, amount as int) == Ok::<
                        CustodyAccount,
                        LendingError,
                    >(acct)
                    &&& match slot {
                        Some(i) => i < self.lender_vault@.len() && self.lender_vault@[i as int].0
                            == lender,
                        None => !self@.custody.contains_key(lender),
                    }
                },
                Err(e) => self@.deposit(lender, resource, amount as int) == Err::<
                    CustodyAccount,
                    LendingError,
                >(e),
            },
    {
        match self.find_vault(lender) {
            None => Ok((None, CustodyAccount { resource, balance: Decimal { attos: amount } })),
            Some(i) => {
                let acct = self.lender_vault[i].1;
                if acct.resource != resource {
                    return Err(LendingError::CustodyTypeMismatch);
                }
                match acct.balance.attos.checked_add(amount) {
                    None => Err(LendingError::ArithmeticOverflow),
                    Some(b) => Ok((Some(i), CustodyAccount { resource, balance: Decimal { attos: b } })),
                }
            },
        }
    }

    /// Stores `acct` as `lender`'s account, in the slot that `plan_deposit` found.
    fn store_account(&mut self, slot: Option<usize>, lender: PartyId, acct: CustodyAccount)
        requires
            old(self).wf(),
            match slot {
                Some(i) => i < old(self).lender_vault@.len() && old(self).lender_vault@[i as int].0
                    == lender,
                None => !old(self)@.custody.contains_key(lender),
            },
        ensures
            final(self).wf(),
            final(self)@.loans == old(self)@.loans,
            final(self)@.custody == old(self)@.custody.insert(lender, acct),
    {
        let ghost old_vault = self.lender_vault@;
        match slot {
            Some(i) => {
                self.lender_vault.set(i, (lender, acct));
            },
            None => {
                self.lender_vault.push((lender, acct));
            },
        }
        self.custody = Ghost(self.custody@.insert(lender, acct));
        proof {
            let vault = self.lender_vault@;
            let k: int = match slot {
                Some(i) => i as int,
                None => old_vault.len() as int,
            };
            assert(vault.len() == old_vault.len() || vault.len() == old_vault.len() + 1);
            assert(vault[k] == (lender, acct));
            assert forall|j: int| 0 <= j < vault.len() && j != k implies vault[j] == old_vault[j]
                && old_vault[j].0 != lender by {
                if slot is None {
                    assert(old(self).custody@.contains_key(old_vault[j].0));
                }
            }
            assert forall|i: int, j: int|
                #![trigger vault[i], vault[j]]
                0 <= i < j < vault.len() implies vault[i].0 != vault[j].0 by {
                if i != k && j != k {
                    assert(old_vault[i] == vault[i] && old_vault[j] == vault[j]);
                }
            }
            assert forall|i: int| 0 <= i < vault.len() implies {
                &&& self.custody@.contains_key((#[trigger] vault[i]).0)
                &&& self.custody@[vault[i].0] == vault[i].1
            } by {
                if i != k {
                    assert(old_vault[i] == vault[i]);
                }
            }
            assert forall|p: PartyId| #[trigger] self.custody@.contains_key(p) implies exists|
                i: int,
            |
                0 <= i < vault.len() && (#[trigger] vault[i]).0 == p by {
                if p == lender {
                    assert(vault[k].0 == p);
                } else {
                    let w = choose|i: int| 0 <= i < old_vault.len() && (#[trigger] old_vault[i]).0 == p;
                    assert(vault[w] == old_vault[w]);
                }
            }
            assert(self@.loans == old(self)@.loans);
            assert forall|i: int| 0 <= i < self@.loans.len() implies {
                &&& (#[trigger] self@.loans[i]).amount.attos > 0
                &&& self@.loans[i].duration_in_months >= 1
                &&& self@.custody.contains_key(self@.loans[i].lender)
            } by {
                assert(old(self)@.loans[i] == self@.loans[i]);
            }
        }
    }

    /// Originates a loan at time `now` and moves `lender_tokens` in full into
    /// the lender's custody account, opening it for that resource if needed.
    pub fn lend_tokens(
        &mut self,
        borrower: PartyId,
        amount: Decimal,
        interest_rate_per_month: Decimal,
        duration_in_months: u8,
        lender_address: PartyId,
        lender_tokens: Holding,
        now: u64,
    ) -> (r: Result<u128, Refusal>)
        requires
            old(self).wf(),
            amount.attos > 0,
            duration_in_months >= 1,
        ensures
            final(self).wf(),
            match old(self)@.lend(
                borrower,
                amount,
                interest_rate_per_month,
                duration_in_months,
                lender_address,
                lender_tokens,
                now,
            ) {
                Ok(m) => {
                    &&& r == Ok::<u128, Refusal>(old(self)@.next_id() as u128)
                    &&& final(self)@ == m
                },
                Err(e) => {
                    &&& r == Err::<u128, Refusal>((Refusal { error: e, holding: lender_tokens }))
                    &&& final(self)@ == old(self)@
                },
            },
    {
        let planned = self.plan_deposit(
            lender_address,
            lender_tokens.resource,
            lender_tokens.amount.attos,
        );
        let (slot, acct) = match planned {
            Err(e) => {
                return Err(Refusal { error: e, holding: lender_tokens });
            },
            Ok(p) => p,
        };
        let loan_id = self.loans.len() as u128;
        let loan = Loan {
            lender: lender_address,
            borrower,
            amount,
            interest_rate_per_month,
            duration_in_months,
            start_time: now,
            is_repaid: false,
        };
        self.store_account(slot, lender_address, acct);
        let ghost before = self.loans@;
        self.loans.push(loan);
        self.loan_count = self.loan_count + 1;
        proof {
            assert forall|i: int| 0 <= i < self.loans@.len() implies {
                &&& (#[trigger] self.loans@[i]).amount.attos > 0
                &&& self.loans@[i].duration_in_months >= 1
                &&& self.custody@.contains_key(self.loans@[i].lender)
            } by {
                if i < before.len() {
                    assert(self.loans@[i] == before[i]);
                }
            }
        }
        Ok(loan_id)
    }

    /// Repays loan `loan_id` at time `now` from `payment`: the total due goes
    /// to the lender's custody account and the loan becomes repaid. Returns
    /// what is left of `payment` and an empty holding of the custody
    /// account's resource.
    pub fn repay_loan(&mut self, loan_id: u128, payment: Holding, now: u64) -> (r: Result<
        (Holding, Holding),
        Refusal,
    >)
        requires
            old(self).wf(),
            old(self)@.clock_ok(loan_id, now),
        ensures
            final(self).wf(),
            match old(self)@.repay(loan_id, payment, now) {
                Ok((m, due)) => {
                    &&& final(self)@ == m
                    &&& r == Ok::<(Holding, Holding), Refusal>(
                        (
                            (Holding {
                                resource: payment.resource,
                                amount: Decimal { attos: (payment.amount.attos - due) as u128 },
                            }),
                            (Holding { resource: payment.resource, amount: Decimal { attos: 0 } }),
                        ),
                    )
                },
                Err(e) => {
                    &&& r == Err::<(Holding, Holding), Refusal>(
                        (Refusal { error: e, holding: payment }),
                    )
                    &&& final(self)@ == old(self)@
                },
            },
    {
        if loan_id >= self.loans.len() as u128 {
            return Err(Refusal { error: LendingError::NotFound, holding: payment });
        }
        let idx = loan_id as usize;
        let loan = self.loans[idx];
        assert(self@.loans[idx as int] == loan);
        if loan.is_repaid {
            return Err(Refusal { error: LendingError::AlreadyRepaid, holding: payment });
        }
        let elapsed: u64 = now - loan.start_time;
        let periods = periods_elapsed(elapsed, loan.duration_in_months);
        let due = match total_due(loan.amount, loan.interest_rate_per_month, periods) {
            None => {
                return Err(Refusal { error: LendingError::ArithmeticOverflow, holding: payment });
            },
            Some(d) => d,
        };
        if payment.amount.attos < due.attos {
            return Err(Refusal { error: LendingError::InsufficientPayment, holding: payment });
        }
        let planned = self.plan_deposit(loan.lender, payment.resource, due.attos);
        let (slot, acct) = match planned {
            Err(e) => {
                return Err(Refusal { error: e, holding: payment });
            },
            Ok(p) => p,
        };
        self.store_account(slot, loan.lender, acct);
        let ghost before = self.loans@;
        let ghost settled = *self;
        let repaid = Loan { is_repaid: true, ..loan };
        self.loans.set(idx, repaid);
        proof {
            assert forall|i: int| 0 <= i < self@.loans.len() implies {
                &&& (#[trigger] self@.loans[i]).amount.attos > 0
                &&& self@.loans[i].duration_in_months >= 1
                &&& self@.custody.contains_key(self@.loans[i].lender)
            } by {
                assert(before[i] == self@.loans[i] || i == idx);
            }
            assert(self.lender_vault@ == settled.lender_vault@);
        }
        let rest = Holding {
            resource: payment.resource,
            amount: Decimal { attos: payment.amount.attos - due.attos },
        };
        Ok((rest, Holding { resource: payment.resource, amount: Decimal { attos: 0 } }))
    }

    /// The identifier that the next origination will receive.
    pub fn next_loan_id(&self) -> (r: u128)
        requires
            self.wf(),
        ensures
            r == self@.next_id(),
    {
        self.loan_count
    }

    /// `lender`'s custody account, where one has been opened.
    pub fn custody_account(&self, lender: PartyId) -> (r: Option<CustodyAccount>)
        requires
            self.wf(),
        ensures
            r == (if self@.custody.contains_key(lender) {
                Some(self@.custody[lender])
            } else {
                None::<CustodyAccount>
            }),
    {
        match self.find_vault(lender) {
            Some(i) => Some(self.lender_vault[i].1),
            None => None,
        }
    }

    /// A copy of loan `loan_id`, or `None` where there is none.
    pub fn get_loan_details(&self, loan_id: u128) -> (r: Option<Loan>)
        requires
            self.wf(),
        ensures
            r == self@.get(loan_id),
    {
        if loan_id < self.loans.len() as u128 {
            let l = self.loans[loan_id as usize];
            assert(self@.get(loan_id) == Some(l));
            Some(l)
        } else {
            None
        }
    }
}

} // verus!
