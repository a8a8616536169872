use kompact_sim::scheduler::{
    maybe_reschedule, reschedule_after_execution, Followup, ScheduleAction, SchedulingDecision,
    SimulatedScheduling, SimulationSchedulerData,
};

#[test]
fn new_scheduler_queues() {
    let s: SimulationSchedulerData<u32> = SimulationSchedulerData::new();
    assert_eq!(s.get_scheduling(), SimulatedScheduling::Queue);
    assert_eq!(s.get_queue_len(), 0);
}

#[test]
fn queue_is_first_in_first_out() {
    let mut s = SimulationSchedulerData::new();
    assert!(matches!(s.schedule(1), ScheduleAction::Queued));
    assert!(matches!(s.schedule(2), ScheduleAction::Queued));
    s.push_back_to_queue(3);
    assert_eq!(s.get_queue_len(), 3);
    assert_eq!(s.pop_from_queue(), Some(1));
    assert!(matches!(s.schedule(4), ScheduleAction::Queued));
    assert_eq!(s.pop_from_queue(), Some(2));
    assert_eq!(s.pop_from_queue(), Some(3));
    assert_eq!(s.pop_from_queue(), Some(4));
    assert_eq!(s.pop_from_queue(), None);
}

#[test]
fn now_and_future_execute_at_once() {
    let mut s = SimulationSchedulerData::new();
    s.set_scheduling(SimulatedScheduling::Now);
    assert!(matches!(s.schedule(7), ScheduleAction::ExecuteOnce(7)));
    s.set_scheduling(SimulatedScheduling::Future);
    assert!(matches!(s.schedule(8), ScheduleAction::ExecuteUntilSettled(8)));
    assert_eq!(s.get_queue_len(), 0);
}

#[test]
fn followups_after_future_execution() {
    assert_eq!(maybe_reschedule(SchedulingDecision::Schedule), Followup::ScheduleAgain);
    assert_eq!(maybe_reschedule(SchedulingDecision::Resume), Followup::ExecuteAgain);
    assert_eq!(maybe_reschedule(SchedulingDecision::NoWork), Followup::Done);
    assert_eq!(maybe_reschedule(SchedulingDecision::Blocked), Followup::Done);
    assert_eq!(maybe_reschedule(SchedulingDecision::AlreadyScheduled), Followup::Done);
}

#[test]
fn reschedule_after_single_execution() {
    assert!(reschedule_after_execution(SchedulingDecision::Schedule));
    assert!(reschedule_after_execution(SchedulingDecision::Resume));
    assert!(!reschedule_after_execution(SchedulingDecision::NoWork));
    assert!(!reschedule_after_execution(SchedulingDecision::Blocked));
}
