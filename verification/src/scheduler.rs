//! Admission of check units under a fixed ceiling of units in flight.
//!
//! The scheduler decides; whoever drives it runs the units. It is asked what
//! to do next, starts the unit it is told to start, and reports each unit
//! that ends. A unit that ends frees its place at once, so the ceiling is a
//! rolling one and not a barrier between batches.

use vstd::prelude::*;

verus! {

/// How many units may be in flight at once unless configured otherwise.
pub const PARALLEL_REQUESTS: usize = 10;

/// What the driver is to do next.
#[derive(Clone, Copy, Debug, PartialEq, Eq, Structural)]
pub enum SchedulerStep {
    /// Start the unit with this index in the list of addresses.
    Dispatch(usize),
    /// Every place is taken, or nothing is left to start: wait for a unit in
    /// flight to end.
    Wait,
    /// Every unit was started and has ended.
    Finished,
}

/// A `Scheduler` as contracts see it.
pub struct SchedulerView {
    /// How many units there are in all.
    pub total: nat,
    /// The ceiling on units in flight.
    pub limit: nat,
    /// How many units were started; they are the units `0..dispatched`.
    pub dispatched: nat,
    /// How many started units have ended.
    pub completed: nat,
}

impl SchedulerView {
    /// The counters are consistent and the ceiling holds.
    pub open spec fn well_formed(self) -> bool {
        &&& self.limit >= 1
        &&& self.completed <= self.dispatched <= self.total
        &&& self.dispatched - self.completed <= self.limit
    }

    /// How many units are in flight.
    pub open spec fn in_flight(self) -> nat {
        (self.dispatched - self.completed) as nat
    }

    /// How many units wait to be started.
    pub open spec fn queued(self) -> nat {
        (self.total - self.dispatched) as nat
    }

    /// A unit can be started now: one waits and a place is free.
    pub open spec fn can_dispatch(self) -> bool {
        self.queued() > 0 && self.in_flight() < self.limit
    }

    /// What the driver is to do next.
    pub open spec fn step(self) -> SchedulerStep {
        if self.can_dispatch() {
            SchedulerStep::Dispatch(self.dispatched as usize)
        } else if self.in_flight() > 0 {
            SchedulerStep::Wait
        } else {
            SchedulerStep::Finished
        }
    }

    /// The state after the driver was told its next step: a dispatch counts
    /// the unit as started, the other steps change nothing.
    pub open spec fn after_step(self) -> SchedulerView {
        if self.can_dispatch() {
            SchedulerView { dispatched: self.dispatched + 1, ..self }
        } else {
            self
        }
    }

    /// The state after a unit in flight ended; with none in flight, nothing
    /// changes.
    pub open spec fn after_unit_finished(self) -> SchedulerView {
        if self.in_flight() > 0 {
            SchedulerView { completed: self.completed + 1, ..self }
        } else {
            self
        }
    }
}

/// Admits `total` units, at most `limit` of them in flight at a time.
#[derive(Debug)]
pub struct Scheduler {
    total: usize,
    limit: usize,
    dispatched: usize,
    completed: usize,
}

impl View for Scheduler {
    type V = SchedulerView;

    closed spec fn view(&self) -> SchedulerView {
        SchedulerView {
            total: self.total as nat,
            limit: self.limit as nat,
            dispatched: self.dispatched as nat,
            completed: self.completed as nat,
        }
    }
}

impl Scheduler {
    #[verifier::type_invariant]
    spec fn consistent(&self) -> bool {
        self@.well_formed()
    }

    /// A scheduler for `total` units under the ceiling `limit`, nothing
    /// started yet. A ceiling of zero admits nothing and is refused.
    pub fn new(total: usize, limit: usize) -> (made: Option<Scheduler>)
        ensures
            limit == 0 <==> made is None,
            made matches Some(scheduler) ==> scheduler@ == (SchedulerView {
                total: total as nat,
                limit: limit as nat,
                dispatched: 0,
                completed: 0,
            }) && scheduler@.well_formed(),
    {
        if limit == 0 {
            None
        } else {
            Some(Scheduler { total, limit, dispatched: 0, completed: 0 })
        }
    }

    /// How many units are in flight; never more than the ceiling.
    pub fn in_flight(&self) -> (count: usize)
        ensures
            count == self@.in_flight(),
            count <= self@.limit,
            self@.well_formed(),
    {
        proof {
            use_type_invariant(self);
        }
        self.dispatched - self.completed
    }

    /// Tells the driver what to do next. While a unit waits and a place is
    /// free the answer is to start the next unit, which is counted as in
    /// flight from then on; units are started in the order of their indices,
    /// each once.
    pub fn next_step(&mut self) -> (step: SchedulerStep)
        ensures
            step == old(self)@.step(),
            final(self)@ == old(self)@.after_step(),
            final(self)@.well_formed(),
    {
        proof {
            use_type_invariant(&*self);
        }
        if self.dispatched < self.total && self.dispatched - self.completed < self.limit {
            let index = self.dispatched;
            self.dispatched = self.dispatched + 1;
            SchedulerStep::Dispatch(index)
        } else if self.dispatched > self.completed {
            SchedulerStep::Wait
        } else {
            SchedulerStep::Finished
        }
    }

    /// Takes note that a unit in flight has ended, normally or not, and
    /// frees its place. Returns whether a unit was in flight.
    pub fn unit_finished(&mut self) -> (counted: bool)
        ensures
            counted == (old(self)@.in_flight() > 0),
            final(self)@ == old(self)@.after_unit_finished(),
            final(self)@.well_formed(),
    {
        proof {
            use_type_invariant(&*self);
        }
        if self.dispatched > self.completed {
            self.completed = self.completed + 1;
            true
        } else {
            false
        }
    }
}

/// The ceiling holds in every state: no step and no ending unit leads out of
/// the well-formed states.
pub proof fn lemma_ceiling_is_kept(state: SchedulerView)
    requires
        state.well_formed(),
    ensures
        state.after_step().well_formed(),
        state.after_unit_finished().well_formed(),
        state.in_flight() <= state.limit,
{
}

/// Admission is rolling: when a unit ends while another waits, the very next
/// step starts the waiting unit.
pub proof fn lemma_admission_is_rolling(state: SchedulerView)
    requires
        state.well_formed(),
        state.in_flight() > 0,
        state.queued() > 0,
    ensures
        state.after_unit_finished().step() == SchedulerStep::Dispatch(state.dispatched as usize),
{
}

/// The ceiling is kept saturated: the driver is told to wait only while
/// every place is taken or nothing is left to start, and is told that the
/// work is finished only when every unit was started and has ended.
pub proof fn lemma_steps_are_exact(state: SchedulerView)
    requires
        state.well_formed(),
    ensures
        state.step() is Wait ==> state.in_flight() > 0 && (state.in_flight() == state.limit
            || state.queued() == 0),
        state.step() is Finished <==> state.completed == state.total,
        state.step() is Dispatch ==> state.after_step().in_flight() == state.in_flight() + 1
            && state.after_step().queued() + 1 == state.queued(),
{
}

} // verus!
