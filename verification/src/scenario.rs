use vstd::prelude::*;
use vstd::string::StringExecFns;

use crate::report::{decimal, decimal_string};
use crate::scheduler::{
    reschedule_after_execution, ScheduleAction, SchedulingDecision, SimulatedScheduling,
    SimulationSchedulerData,
};

verus! {

/// The bookkeeping of a simulation run: its scheduler, the number of steps
/// taken, and the last state record.
pub struct SimulationScenario<C> {
    scheduler: SimulationSchedulerData<C>,
    phase: StepPhase,
    simulation_step_count: u64,
    prev_state_string: String,
}

/// Where a simulation step stands. A step records the monitored states and
/// counts itself (`begin_step`), advances the simulated clock by one tick
/// (`clock_advanced`), then takes at most one queued component to run
/// (`get_work`); each of these requires the one before.
#[derive(Clone, Copy, Debug, PartialEq, Eq, Structural)]
pub enum StepPhase {
    /// No step is under way.
    Idle,
    /// The states are recorded and the step counted; the clock is next.
    Recorded,
    /// The clock advanced; the component to run is next.
    Ticked,
}

/// The record written for a step: the step number on a line of its own,
/// then the rendered states.
pub open spec fn state_record_text(step: nat, states: Seq<char>) -> Seq<char> {
    decimal(step) + seq!['\n'] + states
}

impl<C> SimulationScenario<C> {
    pub closed spec fn scheduler(&self) -> SimulationSchedulerData<C> {
        self.scheduler
    }

    /// Where the current simulation step stands.
    pub closed spec fn phase(&self) -> StepPhase {
        self.phase
    }

    pub closed spec fn step_count(&self) -> u64 {
        self.simulation_step_count
    }

    /// The states recorded last; records are compared against it.
    pub closed spec fn prev_states(&self) -> Seq<char> {
        self.prev_state_string@
    }

    /// A fresh scenario: queue scheduling, an empty queue, no steps taken and
    /// an empty previous record.
    pub fn new() -> (r: Self)
        ensures
            r.scheduler().mode() == SimulatedScheduling::Queue,
            r.scheduler().queued() == Seq::<C>::empty(),
            r.step_count() == 0,
            r.prev_states() == Seq::<char>::empty(),
            r.phase() == StepPhase::Idle,
    {
        SimulationScenario {
            scheduler: SimulationSchedulerData::new(),
            phase: StepPhase::Idle,
            simulation_step_count: 0,
            prev_state_string: String::new(),
        }
    }

    /// Sets how scheduled components are treated.
    pub fn set_scheduling_choice(&mut self, choice: SimulatedScheduling)
        ensures
            final(self).scheduler().mode() == choice,
            final(self).scheduler().queued() == old(self).scheduler().queued(),
            final(self).step_count() == old(self).step_count(),
            final(self).phase() == old(self).phase(),
            final(self).prev_states() == old(self).prev_states(),
    {
        self.scheduler.set_scheduling(choice);
    }

    /// Ends the setup phase: from now on scheduled components are queued.
    pub fn end_setup(&mut self)
        ensures
            final(self).scheduler().mode() == SimulatedScheduling::Queue,
            final(self).scheduler().queued() == old(self).scheduler().queued(),
            final(self).step_count() == old(self).step_count(),
            final(self).phase() == old(self).phase(),
            final(self).prev_states() == old(self).prev_states(),
    {
        self.scheduler.set_scheduling(SimulatedScheduling::Queue);
    }

    /// The current scheduling mode.
    pub fn get_scheduling(&self) -> (r: SimulatedScheduling)
        ensures
            r == self.scheduler().mode(),
    {
        self.scheduler.get_scheduling()
    }

    /// Hands a component to the scheduler.
    pub fn schedule(&mut self, c: C) -> (r: ScheduleAction<C>)
        ensures
            final(self).scheduler().mode() == old(self).scheduler().mode(),
            final(self).step_count() == old(self).step_count(),
            final(self).phase() == old(self).phase(),
            final(self).prev_states() == old(self).prev_states(),
            match old(self).scheduler().mode() {
                SimulatedScheduling::Future => r == ScheduleAction::ExecuteUntilSettled(c) && final(self).scheduler().queued() == old(self).scheduler().queued(),
                SimulatedScheduling::Now => r == ScheduleAction::ExecuteOnce(c) && final(self).scheduler().queued() == old(self).scheduler().queued(),
                SimulatedScheduling::Queue => r == ScheduleAction::<C>::Queued && final(self).scheduler().queued() == old(self).scheduler().queued().push(c),
            },
    {
        self.scheduler.schedule(c)
    }

    /// The number of queued components.
    pub fn queue_len(&self) -> (r: usize)
        ensures
            r == self.scheduler().queued().len(),
    {
        self.scheduler.get_queue_len()
    }

    /// Takes the next queued component, front first, to run in this step;
    /// the step is then over.
    pub fn get_work(&mut self) -> (r: Option<C>)
        requires
            old(self).phase() == StepPhase::Ticked,
        ensures
            final(self).phase() == StepPhase::Idle,
            final(self).scheduler().mode() == old(self).scheduler().mode(),
            final(self).step_count() == old(self).step_count(),
            final(self).prev_states() == old(self).prev_states(),
            old(self).scheduler().queued().len() == 0 ==> (r is None) && final(self).scheduler().queued() == old(self).scheduler().queued(),
            old(self).scheduler().queued().len() > 0 ==> r == Some(old(self).scheduler().queued()[0]) && final(self).scheduler().queued() == old(self).scheduler().queued().drop_first(),
    {
        self.phase = StepPhase::Idle;
        self.scheduler.pop_from_queue()
    }


    /// Where the current simulation step stands.
    pub fn step_phase(&self) -> (r: StepPhase)
        ensures
            r == self.phase(),
    {
        self.phase
    }

    /// The number of steps taken.
    pub fn simulation_step_count(&self) -> (r: u64)
        ensures
            r == self.step_count(),
    {
        self.simulation_step_count
    }

    /// Begins a simulation step: gives what the step records for the
    /// rendered states (as `state_record` says, under the step's number so
    /// far) and counts the step.
    pub fn begin_step(&mut self, states: &String) -> (r: Option<String>)
        requires
            old(self).phase() == StepPhase::Idle,
            old(self).step_count() < u64::MAX,
        ensures
            final(self).phase() == StepPhase::Recorded,
            final(self).step_count() == old(self).step_count() + 1,
            final(self).scheduler() == old(self).scheduler(),
            final(self).prev_states() == old(self).prev_states(),
            states@ == old(self).prev_states() ==> (r is None),
            states@ != old(self).prev_states() ==> (r is Some) && r->0@ == state_record_text(old(self).step_count() as nat, states@),
    {
        let record = self.state_record(states);
        self.simulation_step_count = self.simulation_step_count + 1;
        self.phase = StepPhase::Recorded;
        record
    }

    /// The simulated clock advanced by one tick in the current step.
    pub fn clock_advanced(&mut self)
        requires
            old(self).phase() == StepPhase::Recorded,
        ensures
            final(self).phase() == StepPhase::Ticked,
            final(self).step_count() == old(self).step_count(),
            final(self).scheduler() == old(self).scheduler(),
            final(self).prev_states() == old(self).prev_states(),
    {
        self.phase = StepPhase::Ticked;
    }


    /// After a step executed the component `w`, which reported `decision`:
    /// a component with more work is handed to the scheduler again (and what
    /// the scheduler does is returned); one without is dropped. A component
    /// that reports it was already scheduled is an error.
    pub fn reschedule(&mut self, w: C, decision: SchedulingDecision) -> (r: Option<ScheduleAction<C>>)
        requires
            decision != SchedulingDecision::AlreadyScheduled,
        ensures
            final(self).scheduler().mode() == old(self).scheduler().mode(),
            final(self).step_count() == old(self).step_count(),
            final(self).phase() == old(self).phase(),
            final(self).prev_states() == old(self).prev_states(),
            !(decision == SchedulingDecision::Schedule || decision == SchedulingDecision::Resume) ==> (r is None) && final(self).scheduler().queued() == old(self).scheduler().queued(),
            (decision == SchedulingDecision::Schedule || decision == SchedulingDecision::Resume) ==> (r is Some) && match old(self).scheduler().mode() {
                SimulatedScheduling::Future => r->0 == ScheduleAction::ExecuteUntilSettled(w) && final(self).scheduler().queued() == old(self).scheduler().queued(),
                SimulatedScheduling::Now => r->0 == ScheduleAction::ExecuteOnce(w) && final(self).scheduler().queued() == old(self).scheduler().queued(),
                SimulatedScheduling::Queue => r->0 == ScheduleAction::<C>::Queued && final(self).scheduler().queued() == old(self).scheduler().queued().push(w),
            },
    {
        if reschedule_after_execution(decision) {
            Some(self.schedule(w))
        } else {
            None
        }
    }

    /// What a step writes for the rendered states `states`: nothing when they
    /// equal the previous record's states, else the step number on a line of
    /// its own followed by the states.
    pub fn state_record(&self, states: &String) -> (r: Option<String>)
        ensures
            states@ == self.prev_states() ==> (r is None),
            states@ != self.prev_states() ==> (r is Some) && r->0@ == state_record_text(self.step_count() as nat, states@),
    {
        if states.eq(&self.prev_state_string) {
            None
        } else {
            let mut record = decimal_string(self.simulation_step_count);
            proof {
                reveal_strlit("\n");
            }
            record.append("\n");
            record.append(states.as_str());
            assert(record@ =~= state_record_text(self.step_count() as nat, states@));
            Some(record)
        }
    }
}


/// A value of the simulated state, kept for later use.
pub struct SimualtionState<T> {
    pub state: T,
}

impl<T> SimualtionState<T> {
    /// Takes a state and keeps nothing of it: no `SimualtionState` is built.
    pub fn new(state: T) {
    }
}

} // verus!
