use keli_budget::{Budget, BudgetError, EvenSplitLedgerLobe, LobeBudget, NodeHdl};

const LEDGER: NodeHdl = NodeHdl(100);
const A: NodeHdl = NodeHdl(1);
const B: NodeHdl = NodeHdl(2);

fn b(minerals: u32, vespene: u32, food: u32, larva: u32) -> Budget {
    Budget { minerals, vespene, food, larva }
}

fn pool(budget: Budget) -> LobeBudget {
    LobeBudget { lobe: NodeHdl(0), budget }
}

fn started(outputs: Vec<NodeHdl>) -> EvenSplitLedgerLobe {
    let mut ledger = EvenSplitLedgerLobe::new();
    assert_eq!(ledger.start(LEDGER, outputs), Ok(()));
    ledger
}

fn allotment(ledger: &EvenSplitLedgerLobe, output: NodeHdl) -> Budget {
    let out = ledger.tailor_output(output).unwrap();
    assert_eq!(out.lobe, LEDGER);
    out.budget
}

fn spend(lobe: NodeHdl, budget: Budget) -> LobeBudget {
    LobeBudget { lobe, budget }
}

#[test]
fn start_refuses_no_consumers() {
    let mut ledger = EvenSplitLedgerLobe::new();
    assert_eq!(ledger.start(LEDGER, vec![]), Err(BudgetError::Configuration));
    assert_eq!(ledger.update(pool(b(10, 0, 0, 0))), Err(BudgetError::Configuration));
    assert_eq!(ledger.tailor_output(A), Err(BudgetError::Configuration));
    assert_eq!(ledger.tailor_feedback(), Err(BudgetError::Configuration));
}

#[test]
fn start_refuses_repeated_consumers() {
    let mut ledger = EvenSplitLedgerLobe::new();
    assert_eq!(ledger.start(LEDGER, vec![A, B, A]), Err(BudgetError::Configuration));
}

#[test]
fn worked_example_remainder_to_first() {
    let mut ledger = started(vec![A, B]);
    assert_eq!(ledger.update_with_pick(pool(b(101, 0, 0, 0)), 0), Ok(()));
    assert_eq!(allotment(&ledger, A), b(51, 0, 0, 0));
    assert_eq!(allotment(&ledger, B), b(50, 0, 0, 0));
}

#[test]
fn worked_example_remainder_to_second() {
    let mut ledger = started(vec![A, B]);
    assert_eq!(ledger.update_with_pick(pool(b(101, 0, 0, 0)), 3), Ok(()));
    assert_eq!(allotment(&ledger, A), b(50, 0, 0, 0));
    assert_eq!(allotment(&ledger, B), b(51, 0, 0, 0));
}

#[test]
fn worked_example_random_remainder() {
    for _ in 0..20 {
        let mut ledger = started(vec![A, B]);
        assert_eq!(ledger.update(pool(b(101, 0, 0, 0))), Ok(()));
        let a = allotment(&ledger, A);
        let bb = allotment(&ledger, B);
        assert_eq!(a + bb, b(101, 0, 0, 0));
        assert!(
            (a == b(50, 0, 0, 0) && bb == b(51, 0, 0, 0)) || (a == b(51, 0, 0, 0) && bb == b(50, 0, 0, 0))
        );
    }
}

#[test]
fn worked_example_clamp() {
    let mut ledger = started(vec![A, B]);
    assert_eq!(ledger.update_with_pick(pool(b(100, 0, 0, 0)), 0), Ok(()));
    assert_eq!(ledger.feedback(vec![spend(A, b(40, 0, 0, 0)), spend(B, b(50, 0, 0, 0))]), Ok(()));
    assert_eq!(ledger.update_with_pick(pool(b(10, 0, 0, 0)), 1), Ok(()));
    assert_eq!(allotment(&ledger, A), b(10, 0, 0, 0));
    assert_eq!(allotment(&ledger, B), b(0, 0, 0, 0));
}

#[test]
fn clamp_is_per_field() {
    let mut ledger = started(vec![A, B]);
    assert_eq!(ledger.update_with_pick(pool(b(100, 100, 0, 0)), 0), Ok(()));
    assert_eq!(ledger.feedback(vec![spend(B, b(50, 0, 0, 0)), spend(A, b(0, 50, 0, 0))]), Ok(()));
    assert_eq!(ledger.update_with_pick(pool(b(20, 20, 0, 0)), 0), Ok(()));
    // grand total {70, 70}: split {35, 35}
    assert_eq!(allotment(&ledger, A), b(35, 0, 0, 0));
    assert_eq!(allotment(&ledger, B), b(0, 35, 0, 0));
}

#[test]
fn conservation_on_fresh_ledger() {
    let outputs = vec![NodeHdl(1), NodeHdl(2), NodeHdl(3)];
    let mut ledger = started(outputs.clone());
    let total = b(1000, 7, 5, 2);
    assert_eq!(ledger.update(pool(total)), Ok(()));
    let mut sum = Budget::zero();
    for o in &outputs {
        sum = sum + allotment(&ledger, *o);
    }
    assert_eq!(sum, total);
}

#[test]
fn conservation_with_spend() {
    let outputs = vec![NodeHdl(1), NodeHdl(2), NodeHdl(3)];
    let mut ledger = started(outputs.clone());
    assert_eq!(ledger.update_with_pick(pool(b(90, 30, 9, 3)), 2), Ok(()));
    let reports: Vec<LobeBudget> = outputs.iter().map(|o| spend(*o, allotment(&ledger, *o))).collect();
    assert_eq!(ledger.feedback(reports), Ok(()));
    assert_eq!(ledger.update_with_pick(pool(b(31, 4, 0, 2)), 1), Ok(()));
    let mut sum = Budget::zero();
    for o in &outputs {
        sum = sum + allotment(&ledger, *o);
    }
    // no consumer is past the new split, so the allotments make up the pool
    assert_eq!(sum, b(31, 4, 0, 2));
}

#[test]
fn zero_pool_allots_nothing() {
    let mut ledger = started(vec![A, B]);
    assert_eq!(ledger.update_with_pick(pool(b(100, 10, 4, 2)), 0), Ok(()));
    assert_eq!(ledger.feedback(vec![spend(A, b(30, 1, 0, 1)), spend(B, b(2, 3, 2, 0))]), Ok(()));
    assert_eq!(ledger.update_with_pick(pool(Budget::zero()), 0), Ok(()));
    assert_eq!(allotment(&ledger, A), Budget::zero());
    assert_eq!(allotment(&ledger, B), Budget::zero());
}

#[test]
fn steady_state_under_full_spend() {
    let outputs = vec![NodeHdl(1), NodeHdl(2), NodeHdl(3), NodeHdl(4)];
    let mut ledger = started(outputs.clone());
    for cycle in 0..6 {
        assert_eq!(ledger.update(pool(b(40, 8, 4, 0))), Ok(()));
        let mut reports = Vec::new();
        for o in &outputs {
            let a = allotment(&ledger, *o);
            assert_eq!(a, b(10, 2, 1, 0), "cycle {}", cycle);
            reports.push(spend(*o, a));
        }
        assert_eq!(ledger.feedback(reports), Ok(()));
        assert_eq!(ledger.tailor_feedback(), Ok(LobeBudget { lobe: LEDGER, budget: b(40, 8, 4, 0) }));
    }
}

#[test]
fn feedback_sums_last_spend() {
    let mut ledger = started(vec![A, B]);
    assert_eq!(ledger.tailor_feedback(), Ok(LobeBudget { lobe: LEDGER, budget: Budget::zero() }));
    assert_eq!(ledger.update_with_pick(pool(b(100, 10, 4, 2)), 0), Ok(()));
    assert_eq!(ledger.feedback(vec![spend(A, b(30, 1, 0, 1)), spend(B, b(2, 3, 2, 0))]), Ok(()));
    assert_eq!(ledger.tailor_feedback(), Ok(LobeBudget { lobe: LEDGER, budget: b(32, 4, 2, 1) }));
    assert_eq!(ledger.update_with_pick(pool(b(10, 0, 0, 0)), 0), Ok(()));
    assert_eq!(ledger.feedback(vec![spend(A, b(0, 0, 0, 0)), spend(B, b(5, 0, 0, 0))]), Ok(()));
    // the last spend replaces the one before
    assert_eq!(ledger.tailor_feedback(), Ok(LobeBudget { lobe: LEDGER, budget: b(5, 0, 0, 0) }));
}

fn after_first_cycle() -> EvenSplitLedgerLobe {
    let mut ledger = started(vec![A, B]);
    assert_eq!(ledger.update_with_pick(pool(b(100, 0, 0, 0)), 0), Ok(()));
    assert_eq!(ledger.feedback(vec![spend(A, b(40, 0, 0, 0)), spend(B, b(50, 0, 0, 0))]), Ok(()));
    assert_eq!(ledger.update_with_pick(pool(b(10, 0, 0, 0)), 0), Ok(()));
    ledger
}

fn assert_untouched(ledger: &mut EvenSplitLedgerLobe) {
    assert_eq!(ledger.tailor_feedback(), Ok(LobeBudget { lobe: LEDGER, budget: b(90, 0, 0, 0) }));
    assert_eq!(allotment(ledger, A), b(10, 0, 0, 0));
    assert_eq!(allotment(ledger, B), b(0, 0, 0, 0));
    assert_eq!(ledger.update_with_pick(pool(b(10, 0, 0, 0)), 0), Ok(()));
    assert_eq!(allotment(ledger, A), b(10, 0, 0, 0));
}

#[test]
fn short_feedback_is_refused() {
    let mut ledger = after_first_cycle();
    assert_eq!(ledger.feedback(vec![spend(A, b(5, 0, 0, 0))]), Err(BudgetError::Protocol));
    assert_untouched(&mut ledger);
}

#[test]
fn long_feedback_is_refused() {
    let mut ledger = after_first_cycle();
    let batch = vec![spend(A, b(5, 0, 0, 0)), spend(B, b(0, 0, 0, 0)), spend(NodeHdl(3), b(0, 0, 0, 0))];
    assert_eq!(ledger.feedback(batch), Err(BudgetError::Protocol));
    assert_untouched(&mut ledger);
}

#[test]
fn repeated_reporter_is_refused() {
    let mut ledger = after_first_cycle();
    assert_eq!(
        ledger.feedback(vec![spend(A, b(5, 0, 0, 0)), spend(A, b(5, 0, 0, 0))]),
        Err(BudgetError::Protocol)
    );
    assert_untouched(&mut ledger);
}

#[test]
fn unknown_reporter_is_refused() {
    let mut ledger = after_first_cycle();
    assert_eq!(
        ledger.feedback(vec![spend(A, b(5, 0, 0, 0)), spend(NodeHdl(9), b(0, 0, 0, 0))]),
        Err(BudgetError::Protocol)
    );
    assert_untouched(&mut ledger);
}

#[test]
fn overspend_is_refused() {
    let mut ledger = after_first_cycle();
    assert_eq!(
        ledger.feedback(vec![spend(A, b(11, 0, 0, 0)), spend(B, b(0, 0, 0, 0))]),
        Err(BudgetError::Protocol)
    );
    assert_untouched(&mut ledger);
}

#[test]
fn unknown_output_is_refused() {
    let ledger = started(vec![A, B]);
    assert_eq!(ledger.tailor_output(NodeHdl(9)), Err(BudgetError::Protocol));
}

#[test]
fn grand_total_overflow_is_refused() {
    let mut ledger = started(vec![A, B]);
    assert_eq!(ledger.update_with_pick(pool(b(u32::MAX, 0, 0, 0)), 0), Ok(()));
    let half = u32::MAX / 2;
    assert_eq!(allotment(&ledger, A), b(half + 1, 0, 0, 0));
    assert_eq!(
        ledger.feedback(vec![spend(A, b(10, 0, 0, 0)), spend(B, b(0, 0, 0, 0))]),
        Ok(())
    );
    assert_eq!(ledger.update_with_pick(pool(b(u32::MAX - 5, 0, 0, 0)), 0), Err(BudgetError::Arithmetic));
    // the refused cycle leaves the previous allotments in place
    assert_eq!(allotment(&ledger, A), b(half + 1, 0, 0, 0));
}

#[test]
fn running_total_overflow_is_refused() {
    let half = u32::MAX / 2;
    let mut ledger = started(vec![A, B]);
    assert_eq!(ledger.update_with_pick(pool(b(0, 0, 0, u32::MAX)), 0), Ok(()));
    assert_eq!(allotment(&ledger, A), b(0, 0, 0, half + 1));
    assert_eq!(ledger.feedback(vec![spend(A, b(0, 0, 0, half + 1)), spend(B, b(0, 0, 0, 0))]), Ok(()));
    // A is past the new split and gets nothing; B gets the split and the remainder
    assert_eq!(ledger.update_with_pick(pool(b(0, 0, 0, half)), 1), Ok(()));
    assert_eq!(allotment(&ledger, A), b(0, 0, 0, 0));
    assert_eq!(allotment(&ledger, B), b(0, 0, 0, half + 1));
    assert_eq!(
        ledger.feedback(vec![spend(A, b(0, 0, 0, 0)), spend(B, b(0, 0, 0, half + 1))]),
        Err(BudgetError::Arithmetic)
    );
    assert_eq!(ledger.tailor_feedback(), Ok(LobeBudget { lobe: LEDGER, budget: b(0, 0, 0, half + 1) }));
}
