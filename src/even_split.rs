use vstd::prelude::*;

use crate::budget::Budget;
use crate::lobe::{BudgetError, LobeBudget, NodeHdl};

verus! {

/// Splits each incoming budget evenly (rounding down) across its outputs,
/// with no memory from one cycle to the next.
pub struct EvenSplitBudgetLobe {
    num_outputs: u32,
    budget: Budget,
}

impl EvenSplitBudgetLobe {
    /// The number of outputs registered at start; zero before.
    pub closed spec fn outputs(self) -> nat {
        self.num_outputs as nat
    }

    /// The budget received on the last update.
    pub closed spec fn current(self) -> Budget {
        self.budget
    }

    pub fn new() -> (r: Self)
        ensures
            r.outputs() == 0,
            r.current().spec_is_zero(),
    {
        EvenSplitBudgetLobe { num_outputs: 0, budget: Budget::zero() }
    }

    /// Registers the outputs to split across. At least one is needed, and no
    /// more than fit in a `u32`; otherwise nothing changes.
    pub fn start(&mut self, outputs: Vec<NodeHdl>) -> (r: Result<(), BudgetError>)
        ensures
            r is Ok <==> 0 < outputs@.len() <= u32::MAX,
            r is Ok ==> final(self).outputs() == outputs@.len() && final(self).current()
                == old(self).current(),
            r is Err ==> r == Err::<(), BudgetError>(BudgetError::Configuration) && *final(self)
                == *old(self),
    {
        if outputs.len() == 0 || outputs.len() > u32::MAX as usize {
            return Err(BudgetError::Configuration);
        }
        self.num_outputs = outputs.len() as u32;
        Ok(())
    }

    /// Takes the budget to split this cycle.
    pub fn update(&mut self, input: LobeBudget)
        ensures
            final(self).current() == input.budget,
            final(self).outputs() == old(self).outputs(),
    {
        self.budget = input.budget;
    }

    /// The share of `output`: each field of the budget divided by the number
    /// of outputs, rounded down. Before a successful start there are no
    /// outputs to split across.
    pub fn tailor_output(&self, output: NodeHdl) -> (r: Result<LobeBudget, BudgetError>)
        ensures
            self.outputs() == 0 ==> r == Err::<LobeBudget, BudgetError>(
                BudgetError::Configuration,
            ),
            self.outputs() > 0 ==> r is Ok && r->Ok_0.lobe == output && forall|k: int|
                0 <= k < 4 ==> r->Ok_0.budget.amount(k) == self.current().amount(k)
                    / self.outputs() as int,
    {
        if self.num_outputs == 0 {
            return Err(BudgetError::Configuration);
        }
        Ok(LobeBudget { lobe: output, budget: self.budget / self.num_outputs })
    }
}

} // verus!
