use lending_ledger::decimal::{accrued_interest, total_due, Decimal, ONE_ATTOS};
use lending_ledger::ledger::{
    periods_elapsed, CustodyAccount, Holding, LendingBorrowing, LendingError, PartyId,
    ResourceId,
};

const XRD: ResourceId = ResourceId { high: 0x5da6, low: 0x0001 };
const OTHER: ResourceId = ResourceId { high: 0x5da6, low: 0x0002 };
const LENDER: PartyId = PartyId { high: 0xc1, low: 0x0a };
const BORROWER: PartyId = PartyId { high: 0xc1, low: 0x0b };

fn whole(n: u64) -> Decimal {
    Decimal::from_whole(n)
}

fn holding(resource: ResourceId, amount: Decimal) -> Holding {
    Holding { resource, amount }
}

/// 1.10 per period, as in the ten percent example.
fn ten_percent() -> Decimal {
    Decimal::from_attos(ONE_ATTOS / 10)
}

fn ledger_with_one_loan(principal: u64, rate: Decimal, duration: u8, at: u64) -> LendingBorrowing {
    let mut l = LendingBorrowing::instantiate_lending_borrowing();
    let id = l
        .lend_tokens(BORROWER, whole(principal), rate, duration, LENDER, holding(XRD, whole(principal)), at)
        .unwrap();
    assert_eq!(id, 0);
    l
}

#[test]
fn originations_receive_consecutive_ids() {
    let mut l = LendingBorrowing::instantiate_lending_borrowing();
    assert_eq!(l.next_loan_id(), 0);
    for expected in 0u128..5 {
        let id = l
            .lend_tokens(BORROWER, whole(10), ten_percent(), 1, LENDER, holding(XRD, whole(10)), 3)
            .unwrap();
        assert_eq!(id, expected);
        assert_eq!(l.next_loan_id(), expected + 1);
    }
}

#[test]
fn origination_records_terms() {
    let l = ledger_with_one_loan(1000, ten_percent(), 3, 42);
    let loan = l.get_loan_details(0).unwrap();
    assert_eq!(loan.lender, LENDER);
    assert_eq!(loan.borrower, BORROWER);
    assert_eq!(loan.amount, whole(1000));
    assert_eq!(loan.interest_rate_per_month, ten_percent());
    assert_eq!(loan.duration_in_months, 3);
    assert_eq!(loan.start_time, 42);
    assert!(!loan.is_repaid);
}

#[test]
fn repaid_loan_is_terminal() {
    let mut l = ledger_with_one_loan(1000, ten_percent(), 1, 0);
    assert!(l.repay_loan(0, holding(XRD, whole(1000)), 0).is_ok());
    assert!(l.get_loan_details(0).unwrap().is_repaid);
    let again = l.repay_loan(0, holding(XRD, whole(5000)), 90).unwrap_err();
    assert_eq!(again.error, LendingError::AlreadyRepaid);
    assert_eq!(again.holding, holding(XRD, whole(5000)));
    l.lend_tokens(BORROWER, whole(1), ten_percent(), 1, LENDER, holding(XRD, whole(1)), 5)
        .unwrap();
    assert!(l.get_loan_details(0).unwrap().is_repaid);
}

#[test]
fn zero_elapsed_repayment_costs_principal() {
    let mut l = ledger_with_one_loan(1000, ten_percent(), 1, 77);
    assert_eq!(accrued_interest(whole(1000), ten_percent(), 0), Some(whole(0)));
    let short = Decimal::from_attos(whole(1000).attos - 1);
    let e = l.repay_loan(0, holding(XRD, short), 77).unwrap_err();
    assert_eq!(e.error, LendingError::InsufficientPayment);
    let (rest, empty) = l.repay_loan(0, holding(XRD, whole(1000)), 77).unwrap();
    assert_eq!(rest, holding(XRD, whole(0)));
    assert_eq!(empty, holding(XRD, whole(0)));
}

#[test]
fn compound_accrual_two_periods() {
    assert_eq!(periods_elapsed(60, 1), 2);
    assert_eq!(total_due(whole(1000), ten_percent(), 2), Some(whole(1210)));
    assert_eq!(accrued_interest(whole(1000), ten_percent(), 2), Some(whole(210)));

    let mut l = ledger_with_one_loan(1000, ten_percent(), 1, 100);
    let short = Decimal::from_attos(whole(1209).attos + 99 * ONE_ATTOS / 100);
    let e = l.repay_loan(0, holding(XRD, short), 160).unwrap_err();
    assert_eq!(e.error, LendingError::InsufficientPayment);
    assert_eq!(e.holding, holding(XRD, short));
    assert!(!l.get_loan_details(0).unwrap().is_repaid);

    let (rest, _) = l.repay_loan(0, holding(XRD, whole(1210)), 160).unwrap();
    assert_eq!(rest, holding(XRD, whole(0)));
}

#[test]
fn compound_accrual_overpayment_returns_remainder() {
    let mut l = ledger_with_one_loan(1000, ten_percent(), 1, 100);
    let (rest, empty) = l.repay_loan(0, holding(XRD, whole(1300)), 160).unwrap();
    assert_eq!(rest, holding(XRD, whole(90)));
    assert_eq!(empty, holding(XRD, whole(0)));
    assert_eq!(
        l.custody_account(LENDER),
        Some(CustodyAccount { resource: XRD, balance: whole(1000 + 1210) })
    );
}

#[test]
fn duration_stretches_the_period() {
    assert_eq!(periods_elapsed(59, 1), 1);
    assert_eq!(periods_elapsed(60, 2), 1);
    assert_eq!(periods_elapsed(119, 2), 1);
    assert_eq!(periods_elapsed(120, 2), 2);
    let mut l = ledger_with_one_loan(1000, ten_percent(), 2, 0);
    let e = l.repay_loan(0, holding(XRD, whole(1099)), 60).unwrap_err();
    assert_eq!(e.error, LendingError::InsufficientPayment);
    let (rest, _) = l.repay_loan(0, holding(XRD, whole(1100)), 60).unwrap();
    assert_eq!(rest.amount, whole(0));
}

#[test]
fn fractional_products_round_down() {
    // 1 atto at 1.5 per period: 1 * 1.5 = 1.5 attos, kept as 1.
    let half = Decimal::from_attos(ONE_ATTOS / 2);
    assert_eq!(total_due(Decimal::from_attos(1), half, 1), Some(Decimal::from_attos(1)));
    // 3 attos: 4.5 attos, kept as 4.
    assert_eq!(total_due(Decimal::from_attos(3), half, 1), Some(Decimal::from_attos(4)));
}

#[test]
fn custody_accumulates_per_lender() {
    let mut l = LendingBorrowing::instantiate_lending_borrowing();
    assert_eq!(l.custody_account(LENDER), None);
    l.lend_tokens(BORROWER, whole(500), ten_percent(), 1, LENDER, holding(XRD, whole(500)), 0)
        .unwrap();
    l.lend_tokens(BORROWER, whole(700), ten_percent(), 1, LENDER, holding(XRD, whole(700)), 0)
        .unwrap();
    assert_eq!(
        l.custody_account(LENDER),
        Some(CustodyAccount { resource: XRD, balance: whole(1200) })
    );
    // One period on 500 at ten percent: 550 due.
    let (rest, _) = l.repay_loan(0, holding(XRD, whole(550)), 30).unwrap();
    assert_eq!(rest.amount, whole(0));
    assert_eq!(
        l.custody_account(LENDER),
        Some(CustodyAccount { resource: XRD, balance: whole(1750) })
    );
}

#[test]
fn unknown_id_is_not_found() {
    let mut l = ledger_with_one_loan(1000, ten_percent(), 1, 0);
    assert!(l.get_loan_details(1).is_none());
    assert!(l.get_loan_details(u128::MAX).is_none());
    let e = l.repay_loan(1, holding(XRD, whole(2000)), 0).unwrap_err();
    assert_eq!(e.error, LendingError::NotFound);
    assert_eq!(e.holding, holding(XRD, whole(2000)));
    let empty = LendingBorrowing::instantiate_lending_borrowing();
    assert!(empty.get_loan_details(0).is_none());
}

#[test]
fn repeated_queries_agree() {
    let mut l = ledger_with_one_loan(1000, ten_percent(), 1, 9);
    assert_eq!(l.get_loan_details(0), l.get_loan_details(0));
    l.repay_loan(0, holding(XRD, whole(1000)), 9).unwrap();
    let first = l.get_loan_details(0);
    assert_eq!(first, l.get_loan_details(0));
    assert!(first.unwrap().is_repaid);
}

#[test]
fn lending_a_second_resource_is_refused() {
    let mut l = ledger_with_one_loan(1000, ten_percent(), 1, 0);
    let e = l
        .lend_tokens(BORROWER, whole(5), ten_percent(), 1, LENDER, holding(OTHER, whole(5)), 0)
        .unwrap_err();
    assert_eq!(e.error, LendingError::CustodyTypeMismatch);
    assert_eq!(e.holding, holding(OTHER, whole(5)));
    assert_eq!(l.next_loan_id(), 1);
    assert!(l.get_loan_details(1).is_none());
}

#[test]
fn repaying_in_another_resource_is_refused() {
    let mut l = ledger_with_one_loan(1000, ten_percent(), 1, 0);
    let e = l.repay_loan(0, holding(OTHER, whole(1000)), 0).unwrap_err();
    assert_eq!(e.error, LendingError::CustodyTypeMismatch);
    assert!(!l.get_loan_details(0).unwrap().is_repaid);
    assert_eq!(
        l.custody_account(LENDER),
        Some(CustodyAccount { resource: XRD, balance: whole(1000) })
    );
}

#[test]
fn custody_overflow_is_refused() {
    let mut l = LendingBorrowing::instantiate_lending_borrowing();
    let big = Decimal::from_attos(u128::MAX);
    l.lend_tokens(BORROWER, whole(1), ten_percent(), 1, LENDER, holding(XRD, big), 0)
        .unwrap();
    let e = l
        .lend_tokens(BORROWER, whole(1), ten_percent(), 1, LENDER, holding(XRD, Decimal::from_attos(1)), 0)
        .unwrap_err();
    assert_eq!(e.error, LendingError::ArithmeticOverflow);
    assert_eq!(l.next_loan_id(), 1);
}

#[test]
fn interest_overflow_is_refused() {
    let mut l = ledger_with_one_loan(1000, whole(1000), 1, 0);
    assert_eq!(total_due(whole(1000), whole(1000), 100), None);
    let e = l.repay_loan(0, holding(XRD, Decimal::from_attos(u128::MAX)), 3000).unwrap_err();
    assert_eq!(e.error, LendingError::ArithmeticOverflow);
    // At the instant of origination no factor is computed.
    assert!(l.repay_loan(0, holding(XRD, whole(1000)), 0).is_ok());
}

#[test]
fn zero_rate_stays_at_principal() {
    assert_eq!(total_due(whole(1000), whole(0), 1_000_000_000), Some(whole(1000)));
    assert_eq!(accrued_interest(whole(1000), whole(0), 12), Some(whole(0)));
}

#[test]
fn from_whole_scales_by_one_unit() {
    assert_eq!(Decimal::from_whole(3).attos, 3 * ONE_ATTOS);
    assert_eq!(Decimal::from_whole(0).attos, 0);
    assert_eq!(Decimal::from_whole(u64::MAX).attos, u64::MAX as u128 * ONE_ATTOS);
}
