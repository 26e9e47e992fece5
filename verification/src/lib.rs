pub mod account;
pub mod ledger;
pub mod parse;
pub mod report;
pub mod transaction;

pub use account::Account;
pub use ledger::AccountTester;
pub use ledger::Accounts;
pub use parse::ParseError;
pub use parse::process;
pub use transaction::Amount;
pub use transaction::Transaction;
pub use transaction::TransactionType;
