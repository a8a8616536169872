use std::cell::Cell;

use kompact_sim::state::{check_invariance, GetState, Invariant, ProgressCounter, SimulationError};

struct Counter(u64);

impl GetState<u64> for Counter {
    fn get_state(&self) -> u64 {
        self.0
    }
}

impl ProgressCounter for Counter {
    fn get_progress(&self) -> u64 {
        self.0
    }
}

struct Balanced<'a> {
    seen: &'a Cell<usize>,
}

impl<'a> Invariant<u64> for Balanced<'a> {
    fn check(&self, state: Vec<u64>) -> Result<(), SimulationError> {
        self.seen.set(self.seen.get() + 1);
        let min = state.iter().copied().min().unwrap_or(0);
        let max = state.iter().copied().max().unwrap_or(0);
        if max - min > 1 {
            return Err(SimulationError { message: "Count unbalanced".to_string() });
        }
        Ok(())
    }
}

struct Ordered;

impl Invariant<u64> for Ordered {
    fn check(&self, state: Vec<u64>) -> Result<(), SimulationError> {
        if state.windows(2).all(|w| w[0] <= w[1]) {
            Ok(())
        } else {
            Err(SimulationError { message: format!("not ordered: {:?}", state) })
        }
    }
}

#[test]
fn no_invariants_hold() {
    let actors = vec![Counter(1), Counter(9)];
    let invariants: Vec<Ordered> = Vec::new();
    assert!(check_invariance(&invariants, &actors).is_ok());
}

#[test]
fn holding_invariants_pass() {
    let seen = Cell::new(0);
    let actors = vec![Counter(3), Counter(4)];
    let invariants = vec![Balanced { seen: &seen }, Balanced { seen: &seen }];
    assert!(check_invariance(&invariants, &actors).is_ok());
    assert_eq!(seen.get(), 2);
}

#[test]
fn first_violation_stops_the_check() {
    let seen = Cell::new(0);
    let actors = vec![Counter(0), Counter(5)];
    let invariants = vec![Balanced { seen: &seen }, Balanced { seen: &seen }];
    let err = check_invariance(&invariants, &actors).unwrap_err();
    assert_eq!(err.message, "Count unbalanced");
    assert_eq!(seen.get(), 1);
}

#[test]
fn states_come_in_actor_order() {
    let actors = vec![Counter(2), Counter(1)];
    let err = check_invariance(&vec![Ordered], &actors).unwrap_err();
    assert_eq!(err.message, "not ordered: [2, 1]");
    assert_eq!(actors[1].get_progress(), 1);
}
