//! A payments engine: it applies deposits, withdrawals, disputes, resolves
//! and chargebacks to client accounts.
pub mod account;
pub mod amount;
pub mod engine;
pub mod transaction;

pub use account::Account;
pub use amount::Amount;
pub use engine::Engine;
pub use transaction::{Transaction, TransactionType};
pub mod laws;
pub mod run_laws;
pub mod ledger;
