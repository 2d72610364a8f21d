use keli_budget::{
    Budget, BudgetError, EvenSplitBudgetLobe, LobeBudget, NodeHdl, ResourceSnapshot,
    WholeBudgetLobe,
};

fn b(minerals: u32, vespene: u32, food: u32, larva: u32) -> Budget {
    Budget { minerals, vespene, food, larva }
}

#[test]
fn lobe_budget_is_zero() {
    assert!(LobeBudget { lobe: NodeHdl(3), budget: Budget::zero() }.is_zero());
    assert!(!LobeBudget { lobe: NodeHdl(3), budget: b(0, 1, 0, 0) }.is_zero());
}

#[test]
fn whole_budget_takes_the_snapshot() {
    let mut lobe = WholeBudgetLobe::new();
    assert_eq!(lobe.tailor_output(NodeHdl(7)), LobeBudget { lobe: NodeHdl(7), budget: Budget::zero() });
    let frame = ResourceSnapshot { minerals: 50, vespene: 25, food_cap: 14, food_used: 12, larva_count: 3 };
    assert_eq!(lobe.update(frame), Ok(()));
    assert_eq!(lobe.tailor_output(NodeHdl(7)), LobeBudget { lobe: NodeHdl(7), budget: b(50, 25, 2, 3) });
}

#[test]
fn whole_budget_refuses_supply_over_cap() {
    let mut lobe = WholeBudgetLobe::new();
    let good = ResourceSnapshot { minerals: 1, vespene: 2, food_cap: 10, food_used: 10, larva_count: 0 };
    assert_eq!(lobe.update(good), Ok(()));
    let bad = ResourceSnapshot { minerals: 9, vespene: 9, food_cap: 10, food_used: 11, larva_count: 9 };
    assert_eq!(lobe.update(bad), Err(BudgetError::Arithmetic));
    assert_eq!(lobe.tailor_output(NodeHdl(1)).budget, b(1, 2, 0, 0));
}

#[test]
fn even_split_divides_and_rounds_down() {
    let mut lobe = EvenSplitBudgetLobe::new();
    assert_eq!(lobe.start(vec![NodeHdl(1), NodeHdl(2), NodeHdl(3)]), Ok(()));
    lobe.update(LobeBudget { lobe: NodeHdl(0), budget: b(100, 10, 5, 2) });
    assert_eq!(
        lobe.tailor_output(NodeHdl(2)),
        Ok(LobeBudget { lobe: NodeHdl(2), budget: b(33, 3, 1, 0) })
    );
}

#[test]
fn even_split_needs_outputs() {
    let mut lobe = EvenSplitBudgetLobe::new();
    lobe.update(LobeBudget { lobe: NodeHdl(0), budget: b(100, 0, 0, 0) });
    assert_eq!(lobe.tailor_output(NodeHdl(1)), Err(BudgetError::Configuration));
    assert_eq!(lobe.start(vec![]), Err(BudgetError::Configuration));
    assert_eq!(lobe.tailor_output(NodeHdl(1)), Err(BudgetError::Configuration));
}
