//! Negotiation of a shared resource budget among the lobes of a dataflow
//! graph: a source that offers everything a frame holds, a stateless even
//! split, and a ledger that keeps each consumer to an even share over time.

pub mod budget;
pub mod even_split;
pub mod laws;
pub mod ledger;
pub mod lobe;
pub mod whole;

pub use budget::Budget;
pub use even_split::EvenSplitBudgetLobe;
pub use ledger::EvenSplitLedgerLobe;
pub use lobe::{BudgetError, LobeBudget, NodeHdl};
pub use whole::{ResourceSnapshot, WholeBudgetLobe};
