use kompact_sim::scenario::{SimulationScenario, StepPhase};
use kompact_sim::scheduler::{ScheduleAction, SchedulingDecision, SimulatedScheduling};

#[test]
fn new_scenario() {
    let s: SimulationScenario<u8> = SimulationScenario::new();
    assert_eq!(s.get_scheduling(), SimulatedScheduling::Queue);
    assert_eq!(s.queue_len(), 0);
    assert_eq!(s.simulation_step_count(), 0);
}

#[test]
fn setup_switches_modes_and_keeps_the_queue() {
    let mut s = SimulationScenario::new();
    assert!(matches!(s.schedule(1u8), ScheduleAction::Queued));
    s.set_scheduling_choice(SimulatedScheduling::Now);
    assert!(matches!(s.schedule(2u8), ScheduleAction::ExecuteOnce(2)));
    s.end_setup();
    assert_eq!(s.get_scheduling(), SimulatedScheduling::Queue);
    assert_eq!(s.queue_len(), 1);
    tick(&mut s);
    assert_eq!(s.get_work(), Some(1));
    tick(&mut s);
    assert_eq!(s.get_work(), None);
}

/// Runs the parts of a step that come before taking work.
fn tick(s: &mut SimulationScenario<u8>) {
    s.begin_step(&String::new());
    s.clock_advanced();
}

#[test]
fn steps_are_counted() {
    let mut s: SimulationScenario<u8> = SimulationScenario::new();
    assert_eq!(s.step_phase(), StepPhase::Idle);
    assert_eq!(s.begin_step(&String::new()), None);
    assert_eq!(s.step_phase(), StepPhase::Recorded);
    s.clock_advanced();
    assert_eq!(s.step_phase(), StepPhase::Ticked);
    assert_eq!(s.get_work(), None);
    assert_eq!(s.step_phase(), StepPhase::Idle);
    tick(&mut s);
    s.get_work();
    assert_eq!(s.simulation_step_count(), 2);
}

#[test]
fn identical_states_write_nothing() {
    let s: SimulationScenario<u8> = SimulationScenario::new();
    assert_eq!(s.state_record(&String::new()), None);
}

#[test]
fn changed_states_write_step_then_states() {
    let mut s: SimulationScenario<u8> = SimulationScenario::new();
    assert_eq!(s.state_record(&"a\nb\n".to_string()), Some("0\na\nb\n".to_string()));
    // a step records under the count before it, then counts itself
    assert_eq!(s.begin_step(&"x\n".to_string()), Some("0\nx\n".to_string()));
    s.clock_advanced();
    s.get_work();
    for _ in 1..12 {
        tick(&mut s);
        s.get_work();
    }
    assert_eq!(s.state_record(&"a\n".to_string()), Some("12\na\n".to_string()));
    // the previous record stays empty, so the same states are written again
    assert_eq!(s.state_record(&"a\n".to_string()), Some("12\na\n".to_string()));
}

#[test]
fn components_with_more_work_are_queued_again() {
    let mut s = SimulationScenario::new();
    s.schedule(1u8);
    s.schedule(2u8);
    tick(&mut s);
    let w = s.get_work().unwrap();
    assert!(matches!(s.reschedule(w, SchedulingDecision::Resume), Some(ScheduleAction::Queued)));
    tick(&mut s);
    let w = s.get_work().unwrap();
    assert_eq!(w, 2);
    assert!(s.reschedule(w, SchedulingDecision::NoWork).is_none());
    assert!(s.reschedule(9, SchedulingDecision::Blocked).is_none());
    tick(&mut s);
    assert_eq!(s.get_work(), Some(1));
    tick(&mut s);
    assert_eq!(s.get_work(), None);
    s.set_scheduling_choice(SimulatedScheduling::Now);
    assert!(matches!(s.reschedule(3, SchedulingDecision::Schedule), Some(ScheduleAction::ExecuteOnce(3))));
}
