//! A minimal financial ledger: validated calendar dates, transactions in
//! minor currency units, and a persistence layer with monotonic id
//! allocation, specified and verified with Verus.

pub mod calendar;
pub mod database_driver;
pub mod date;
pub mod text;
pub mod transaction;
pub mod treasury_service;

pub use date::Date;
pub use date::DateError;
pub use transaction::Id;
pub use transaction::Money;
pub use transaction::Transaction;
pub use treasury_service::TreasuryService;
pub use treasury_service::TreasuryServiceError;
