//! A personal finance record keeper: named ledgers ("budgets") of dated,
//! signed monetary transactions, persisted in SQLite.  Each budget is one
//! table; tables are created and dropped on demand.  Amounts are fixed-point
//! integers in minor units (for example cents), so that sums are exact.
//!
//! The mathematical model of the database lives in [`model`]; the SQL layer
//! that carries the model's operations out is in [`store`]; the public
//! operations with their contracts are in [`ops`]; [`laws`] states and proves
//! the properties that hold of the model's operations.

pub mod model;
pub mod name;
pub mod data;
pub mod store;
pub mod ops;
pub mod laws;

pub use data::Budget;
pub use data::LedgerError;
pub use name::BudgetName;
pub use store::Store;
pub use ops::add_budget;
pub use ops::remove_budget;
pub use ops::budget_exists;
pub use ops::add_transaction;
pub use ops::remove_transaction;
pub use ops::edit_transaction;
pub use ops::view_budget;
pub use ops::view_budgets;
pub use ops::list_budget_names;
pub use ops::sum_budget;
pub use ops::get_sum;
