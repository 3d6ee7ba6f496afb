//! Ledger classification and tax accrual for a corporation's wallet journal.
//!
//! Calendar periods and fixed-point money are exact value types; ledger
//! entries are attributed to actors by a closed table over transaction-type
//! codes; per-period liabilities and payments are folded into balances.
pub mod accrual;
pub mod aggregate;
pub mod directory;
pub mod error;
pub mod ingest;
pub mod ledger;
pub mod money;
pub mod period;
pub mod text;
