use vstd::prelude::*;

use std::collections::VecDeque;

verus! {

/// How the simulation scheduler treats a component that is scheduled.
#[derive(Clone, Copy, Debug, PartialEq, Eq, Structural)]
pub enum SimulatedScheduling {
    /// Execute it right away, and again for as long as it asks to be resumed.
    Future,
    /// Execute it once right away.
    Now,
    /// Park it at the back of the queue, to be run by a simulation step.
    Queue,
}

/// What a component reports after it was executed.
#[derive(Clone, Copy, Debug, PartialEq, Eq, Structural)]
pub enum SchedulingDecision {
    /// It has more work and must be scheduled again.
    Schedule,
    /// It has more work and may be executed again directly.
    Resume,
    /// It has no work left.
    NoWork,
    /// It is blocked.
    Blocked,
    /// It was already scheduled.
    AlreadyScheduled,
}

/// What the scheduler does with a component that was handed to it.
pub enum ScheduleAction<C> {
    /// Execute the component and follow up as `maybe_reschedule` says.
    ExecuteUntilSettled(C),
    /// Execute the component once, then follow up as `reschedule_after_execution` says.
    ExecuteOnce(C),
    /// The component was put at the back of the queue.
    Queued,
}

/// What follows an execution under `SimulatedScheduling::Future`.
#[derive(Clone, Copy, Debug, PartialEq, Eq, Structural)]
pub enum Followup {
    /// Hand the component to its system's scheduler again.
    ScheduleAgain,
    /// Execute the component again at once.
    ExecuteAgain,
    /// Leave the component alone.
    Done,
}

/// The follow-up of an execution under `SimulatedScheduling::Future`: a
/// component that asks to be scheduled is handed to its system's scheduler
/// again, one that asks to be resumed is executed again, any other is left
/// alone.
pub open spec fn spec_followup(decision: SchedulingDecision) -> Followup {
    match decision {
        SchedulingDecision::Schedule => Followup::ScheduleAgain,
        SchedulingDecision::Resume => Followup::ExecuteAgain,
        _ => Followup::Done,
    }
}

/// Decides what follows an execution under `SimulatedScheduling::Future`.
pub fn maybe_reschedule(decision: SchedulingDecision) -> (r: Followup)
    ensures
        r == spec_followup(decision),
{
    match decision {
        SchedulingDecision::Schedule => Followup::ScheduleAgain,
        SchedulingDecision::Resume => Followup::ExecuteAgain,
        _ => Followup::Done,
    }
}

/// After a single execution (under `SimulatedScheduling::Now`, or in a
/// simulation step): whether the component goes back to the scheduler.
/// A component that reports it was already scheduled is an error.
pub fn reschedule_after_execution(decision: SchedulingDecision) -> (r: bool)
    requires
        decision != SchedulingDecision::AlreadyScheduled,
    ensures
        r == (decision == SchedulingDecision::Schedule || decision
            == SchedulingDecision::Resume),
{
    match decision {
        SchedulingDecision::Schedule | SchedulingDecision::Resume => true,
        SchedulingDecision::NoWork | SchedulingDecision::Blocked => false,
        SchedulingDecision::AlreadyScheduled => false,
    }
}

/// The state of the simulation scheduler: its scheduling mode and the queue
/// of components waiting for a simulation step.
pub struct SimulationSchedulerData<C> {
    scheduling: SimulatedScheduling,
    queue: VecDeque<C>,
}

impl<C> SimulationSchedulerData<C> {
    /// The scheduling mode.
    pub closed spec fn mode(&self) -> SimulatedScheduling {
        self.scheduling
    }

    /// The queued components, front first.
    pub closed spec fn queued(&self) -> Seq<C> {
        self.queue@
    }

    /// A scheduler in queue mode with an empty queue.
    pub fn new() -> (r: Self)
        ensures
            r.mode() == SimulatedScheduling::Queue,
            r.queued() == Seq::<C>::empty(),
    {
        SimulationSchedulerData { scheduling: SimulatedScheduling::Queue, queue: VecDeque::new() }
    }

    pub fn get_scheduling(&self) -> (r: SimulatedScheduling)
        ensures
            r == self.mode(),
    {
        self.scheduling
    }

    pub fn set_scheduling(&mut self, choice: SimulatedScheduling)
        ensures
            final(self).mode() == choice,
            final(self).queued() == old(self).queued(),
    {
        self.scheduling = choice;
    }

    pub fn push_back_to_queue(&mut self, c: C)
        ensures
            final(self).mode() == old(self).mode(),
            final(self).queued() == old(self).queued().push(c),
    {
        self.queue.push_back(c);
    }

    /// Takes the component at the front of the queue, if any.
    pub fn pop_from_queue(&mut self) -> (r: Option<C>)
        ensures
            final(self).mode() == old(self).mode(),
            old(self).queued().len() == 0 ==> (r is None) && final(self).queued() == old(self).queued(),
            old(self).queued().len() > 0 ==> r == Some(old(self).queued()[0]) && final(self).queued() == old(self).queued().drop_first(),
    {
        let r = self.queue.pop_front();
        proof {
            if old(self).queued().len() > 0 {
                assert(self.queue@ =~= old(self).queued().drop_first());
            }
        }
        r
    }

    pub fn get_queue_len(&self) -> (r: usize)
        ensures
            r == self.queued().len(),
    {
        self.queue.len()
    }

    /// Takes a component to schedule: under `Future` and `Now` it is to be
    /// executed at once, under `Queue` it goes to the back of the queue.
    pub fn schedule(&mut self, c: C) -> (r: ScheduleAction<C>)
        ensures
            final(self).mode() == old(self).mode(),
            match old(self).mode() {
                SimulatedScheduling::Future => r == ScheduleAction::ExecuteUntilSettled(c)
                    && final(self).queued() == old(self).queued(),
                SimulatedScheduling::Now => r == ScheduleAction::ExecuteOnce(c) && final(self).queued() == old(self).queued(),
                SimulatedScheduling::Queue => r == ScheduleAction::<C>::Queued && final(self).queued() == old(self).queued().push(c),
            },
    {
        match self.get_scheduling() {
            SimulatedScheduling::Future => ScheduleAction::ExecuteUntilSettled(c),
            SimulatedScheduling::Now => ScheduleAction::ExecuteOnce(c),
            SimulatedScheduling::Queue => {
                self.push_back_to_queue(c);
                ScheduleAction::Queued
            },
        }
    }
}


/// The queue is first in, first out: queuing a component at the back does not
/// change which component a step takes next, nor the order of those behind it.
pub proof fn queue_is_first_in_first_out<C>(queued: Seq<C>, c: C)
    requires
        queued.len() > 0,
    ensures
        queued.push(c)[0] == queued[0],
        queued.push(c).drop_first() == queued.drop_first().push(c),
{
    assert(queued.push(c).drop_first() =~= queued.drop_first().push(c));
}

} // verus!
