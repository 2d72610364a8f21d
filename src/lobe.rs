use vstd::prelude::*;

use crate::budget::Budget;

verus! {

/// Handle of a node (lobe) in the dataflow graph.
#[derive(Debug, Copy, Clone, PartialEq, Eq, Hash, Structural)]
pub struct NodeHdl(pub u64);

/// A budget tagged with the lobe it is addressed to or reported by.
#[derive(Debug, Copy, Clone, PartialEq, Eq, Structural)]
pub struct LobeBudget {
    pub lobe: NodeHdl,
    pub budget: Budget,
}

impl LobeBudget {
    /// Whether the tagged budget is zero in every field.
    pub fn is_zero(&self) -> (r: bool)
        ensures
            r == self.budget.spec_is_zero(),
    {
        self.budget.is_zero()
    }
}

/// What can go wrong while budgets are negotiated.
#[derive(Debug, Copy, Clone, PartialEq, Eq, Structural)]
pub enum BudgetError {
    /// The lobe was set up with an unusable set of outputs (none, repeated
    /// handles, or more than fit in a `u32`), or used before it was set up.
    Configuration,
    /// A feedback batch or an output request that does not match the
    /// registered consumers or their allotments.
    Protocol,
    /// An amount that would not fit in a `u32`, or a field that would go
    /// below zero.
    Arithmetic,
}

} // verus!
