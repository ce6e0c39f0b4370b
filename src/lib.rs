//! A ledger of personal finances: per-owner lists of assets, transactions
//! and savings goals, an administrator set once, and a net-worth rollup.
//! Every mutating operation is accepted only with a proof of identity for
//! the owner it names.
mod address;
mod laws;
mod ledger;
mod records;

pub use address::Address;
pub use laws::{
    appended, lemma_assets_in_submission_order, lemma_isolation_composes,
    lemma_isolation_over_run, lemma_no_assets_no_worth, lemma_same_reading_same_stamp,
    step_appends, step_isolated,
};
pub use ledger::{
    progress_fits, progressed, signed_by, sum_amounts, sums_fit, FinanceManager,
};
pub use records::{Asset, DataKey, FinanceError, Goal, Transaction};
