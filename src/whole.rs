use vstd::prelude::*;

use crate::budget::Budget;
use crate::lobe::{BudgetError, LobeBudget, NodeHdl};

verus! {

/// The resource counts of one game frame that a budget is made of.
#[derive(Debug, Copy, Clone, PartialEq, Eq, Structural)]
pub struct ResourceSnapshot {
    pub minerals: u32,
    pub vespene: u32,
    pub food_cap: u32,
    pub food_used: u32,
    pub larva_count: u32,
}

/// The budget that a snapshot makes available: everything it holds, with
/// the free supply (`food_cap - food_used`) as food.
pub open spec fn budget_of(frame: ResourceSnapshot) -> Budget {
    Budget {
        minerals: frame.minerals,
        vespene: frame.vespene,
        food: (frame.food_cap - frame.food_used) as u32,
        larva: frame.larva_count,
    }
}

/// Sets all resources of the current frame as the budget.
pub struct WholeBudgetLobe {
    budget: Budget,
}

impl WholeBudgetLobe {
    /// The budget that this lobe hands out.
    pub closed spec fn current(self) -> Budget {
        self.budget
    }

    pub fn new() -> (r: Self)
        ensures
            r.current().spec_is_zero(),
    {
        WholeBudgetLobe { budget: Budget::zero() }
    }

    /// Takes the budget from this frame's snapshot. A snapshot that uses more
    /// supply than its cap is inconsistent: it is refused and the budget kept.
    pub fn update(&mut self, frame: ResourceSnapshot) -> (r: Result<(), BudgetError>)
        ensures
            frame.food_used <= frame.food_cap ==> r is Ok && final(self).current() == budget_of(
                frame,
            ),
            frame.food_used > frame.food_cap ==> r == Err::<(), BudgetError>(
                BudgetError::Arithmetic,
            ) && final(self).current() == old(self).current(),
    {
        if frame.food_used > frame.food_cap {
            return Err(BudgetError::Arithmetic);
        }
        self.budget = Budget {
            minerals: frame.minerals,
            vespene: frame.vespene,
            food: frame.food_cap - frame.food_used,
            larva: frame.larva_count,
        };
        Ok(())
    }

    /// The whole budget, addressed to `output`.
    pub fn tailor_output(&self, output: NodeHdl) -> (r: LobeBudget)
        ensures
            r == (LobeBudget { lobe: output, budget: self.current() }),
    {
        LobeBudget { lobe: output, budget: self.budget }
    }
}

} // verus!
