//! A lending ledger: it originates loans, keeps each lender's funds in a
//! custody account, accrues compound interest over elapsed time and settles
//! repayment in full.

pub mod decimal;
pub mod ledger;
pub mod laws;
