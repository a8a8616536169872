use vstd::prelude::*;

verus! {

/// Gives the current state of a monitored actor. The state may change from
/// one call to the next (an actor's state sits behind a lock that the
/// running system updates), so nothing ties one call's answer to another's.
pub trait GetState<T> {
    fn get_state(&self) -> T;
}

/// A property that the states of all monitored actors must keep.
pub trait Invariant<T> {
    /// What `check` answers for the given states: `Ok` when they keep the
    /// property, else the error that says how they violate it. For a generic
    /// invariant it is unknown. An implementation in verified code defines it
    /// and proves `check` against it; one outside verified code keeps this
    /// placeholder, and what `check` promises of it is believed, not proved.
    closed spec fn verdict(&self, state: Seq<T>) -> Result<(), SimulationError> {
        arbitrary()
    }

    /// Checks the property on the states; the answer depends on them alone.
    fn check(&self, state: Vec<T>) -> (r: Result<(), SimulationError>)
        ensures
            r == self.verdict(state@),
    ;
}

/// Reports how far an actor has progressed.
pub trait ProgressCounter {
    fn get_progress(&self) -> u64;
}

/// A violated property, with a message that says which.
pub struct SimulationError {
    pub message: String,
}

/// `s` is a state that `get_state` may give for actor `a`.
pub open spec fn is_state_of<T, A: GetState<T>>(a: A, s: T) -> bool {
    call_ensures(A::get_state, (&a,), s)
}

/// `states` were gathered from `actors`, one per actor, in the actors' order.
pub open spec fn gathered_from<T, A: GetState<T>>(actors: Seq<A>, states: Seq<T>) -> bool {
    &&& states.len() == actors.len()
    &&& forall|k: int| 0 <= k < actors.len() ==> #[trigger] is_state_of(actors[k], states[k])
}

/// The invariants were checked in order, the `i`-th against `checked[i]`,
/// with answer `r`: `Ok` when every invariant held; otherwise the checks
/// stopped at the first that failed, whose error `r` carries.
pub open spec fn checked_in_order<T, I: Invariant<T>>(invariants: Seq<I>, checked: Seq<Seq<T>>, r: Result<(), SimulationError>) -> bool {
    &&& checked.len() <= invariants.len()
    &&& forall|i: int| 0 <= i < checked.len() - 1 ==> (#[trigger] invariants[i].verdict(checked[i])) is Ok
    &&& match r {
        Ok(()) => checked.len() == invariants.len() && (checked.len() > 0 ==> invariants[checked.len() - 1].verdict(checked[checked.len() - 1]) is Ok),
        Err(e) => checked.len() > 0 && invariants[checked.len() - 1].verdict(checked[checked.len() - 1]) == Err::<(), SimulationError>(e),
    }
}

/// Checks every invariant, in order, against the states of all monitored
/// actors, gathered afresh for each invariant in the actors' order, and
/// stops at the first that fails, returning its error; `Ok` when all hold.
pub fn check_invariance<T, I: Invariant<T>, A: GetState<T>>(invariants: &Vec<I>, actors: &Vec<A>) -> (r: Result<(), SimulationError>)
    ensures
        exists|checked: Seq<Seq<T>>|
            (forall|i: int| 0 <= i < checked.len() ==> gathered_from(actors@, #[trigger] checked[i]))
            && #[trigger] checked_in_order(invariants@, checked, r),
{
    let ghost mut checked: Seq<Seq<T>> = Seq::empty();
    let mut i: usize = 0;
    while i < invariants.len()
        invariant
            i <= invariants@.len(),
            checked.len() == i,
            forall|k: int| 0 <= k < checked.len() ==> gathered_from(actors@, #[trigger] checked[k]),
            forall|k: int| 0 <= k < checked.len() ==> (#[trigger] invariants@[k].verdict(checked[k])) is Ok,
        decreases invariants@.len() - i,
    {
        let mut states: Vec<T> = Vec::new();
        let mut j: usize = 0;
        while j < actors.len()
            invariant
                j <= actors@.len(),
                states@.len() == j,
                forall|k: int| 0 <= k < j ==> #[trigger] is_state_of(actors@[k], states@[k]),
            decreases actors@.len() - j,
        {
            let s = actors[j].get_state();
            states.push(s);
            j = j + 1;
        }
        let ghost these = states@;
        assert(gathered_from(actors@, these));
        let answer = invariants[i].check(states);
        proof {
            checked = checked.push(these);
        }
        match answer {
            Ok(()) => {},
            Err(e) => {
                assert(checked_in_order(invariants@, checked, Err(e)));
                return Err(e);
            },
        }
        i = i + 1;
    }
    assert(checked_in_order(invariants@, checked, Ok(())));
    Ok(())
}

} // verus!
