//! The executor: the bookkeeping of one run, as a step function.
//!
//! The executor never waits and never reads a clock. It says what has to be
//! run next, takes note of each unit that completed, and hands out the
//! report once every unit has. Whoever drives it performs the waits.

use crate::report::{outcome_views, OutcomeView, RunReport, UnitOutcome, UnitStatus};
use crate::work::{payload_result, risky_operation, ExecutionMode, WorkUnit};
use vstd::prelude::*;

verus! {

/// The set of units handed to a run is not usable.
#[derive(Clone, Copy, Debug, PartialEq, Eq, Structural)]
pub enum ConfigurationError {
    /// This id is carried by more than one unit.
    DuplicateId(u32),
}

/// Why a completion was not taken note of.
#[derive(Clone, Copy, Debug, PartialEq, Eq, Structural)]
pub enum RecordError {
    /// No unit stands at that index.
    UnknownUnit,
    /// The unit at that index has completed already.
    AlreadyRecorded,
    /// A sequential run was told of a unit other than the one it handed out.
    OutOfTurn,
}

/// What the driver of a run has to do next.
#[derive(Clone, Copy, Debug, PartialEq, Eq, Structural)]
pub enum Action {
    /// Run the unit at `index` alone: wait `delay` milliseconds, then record it.
    RunOne { index: usize, delay: u64 },
    /// Launch every pending unit at once and record each as it completes.
    RunPending,
    /// Every unit has completed: take the report.
    Finish,
}

/// No two units carry the same id.
pub open spec fn ids_distinct(units: Seq<WorkUnit>) -> bool {
    forall|i: int, j: int|
        0 <= i < j < units.len() ==> (#[trigger] units[i]).id != (#[trigger] units[j]).id
}

/// The unit at `j` carries the id of a unit that stands before it.
pub open spec fn repeats_earlier(units: Seq<WorkUnit>, j: int) -> bool {
    exists|i: int| 0 <= i < j && (#[trigger] units[i]).id == units[j].id
}

/// `j` is the first position whose id occurred before.
pub open spec fn is_first_repeat(units: Seq<WorkUnit>, j: int) -> bool {
    &&& 0 <= j < units.len()
    &&& repeats_earlier(units, j)
    &&& forall|k: int| 0 <= k < j ==> !#[trigger] repeats_earlier(units, k)
}

/// Checks that the ids are unique. The error names the id at the first
/// position that repeats an earlier one.
pub fn validate(units: &Vec<WorkUnit>) -> (r: Result<(), ConfigurationError>)
    ensures
        match r {
            Ok(()) => ids_distinct(units@),
            Err(ConfigurationError::DuplicateId(id)) => exists|j: int|
                #[trigger] is_first_repeat(units@, j) && id == units@[j].id,
        },
{
    let mut j: usize = 0;
    while j < units.len()
        invariant
            j <= units.len(),
            forall|k: int| 0 <= k < j ==> !#[trigger] repeats_earlier(units@, k),
        decreases units.len() - j,
    {
        let mut i: usize = 0;
        while i < j
            invariant
                i <= j < units.len(),
                forall|k: int| 0 <= k < j ==> !#[trigger] repeats_earlier(units@, k),
                forall|k: int| 0 <= k < i ==> (#[trigger] units@[k]).id != units@[j as int].id,
            decreases j - i,
        {
            if units[i].id == units[j].id {
                assert(units@[i as int].id == units@[j as int].id);
                assert(is_first_repeat(units@, j as int));
                return Err(ConfigurationError::DuplicateId(units[j].id));
            }
            i += 1;
        }
        j += 1;
    }
    proof {
        assert forall|a: int, b: int| 0 <= a < b < units@.len() implies (#[trigger] units@[a]).id
            != (#[trigger] units@[b]).id by {
            assert(!repeats_earlier(units@, b));
        }
    }
    Ok(())
}

/// The number of slots that hold an outcome.
pub open spec fn filled(slots: Seq<Option<OutcomeView>>) -> nat
    decreases slots.len(),
{
    if slots.len() == 0 {
        0
    } else {
        filled(slots.drop_last()) + if slots.last().is_some() {
            1nat
        } else {
            0nat
        }
    }
}

/// The models of a sequence of slots, in the same order.
pub open spec fn slot_views(slots: Seq<Option<UnitOutcome>>) -> Seq<Option<OutcomeView>> {
    Seq::new(
        slots.len(),
        |i: int|
            match slots[i] {
                Some(outcome) => Some(outcome@),
                None => None,
            },
    )
}

/// The mathematical model of an executor: the units of the run, its mode,
/// and one slot per unit that is empty until the unit has completed.
pub struct ExecutorView {
    pub units: Seq<WorkUnit>,
    pub mode: ExecutionMode,
    pub slots: Seq<Option<OutcomeView>>,
}

impl ExecutorView {
    /// The state before anything ran.
    pub open spec fn initial(units: Seq<WorkUnit>, mode: ExecutionMode) -> ExecutorView {
        ExecutorView { units, mode, slots: Seq::new(units.len(), |i: int| None) }
    }

    /// How many units have completed.
    pub open spec fn completed(self) -> nat {
        filled(self.slots)
    }

    /// Every unit has completed.
    pub open spec fn done(self) -> bool {
        self.completed() == self.units.len()
    }

    /// The outcome of the unit at `index` when it ran over the given interval.
    pub open spec fn outcome_of(self, index: int, started_at: u64, finished_at: u64) -> OutcomeView {
        OutcomeView {
            id: self.units[index].id,
            status: payload_result(self.units[index].should_fail),
            started_at,
            finished_at,
        }
    }

    /// The invariant of a run: one slot per unit, unique ids, each filled
    /// slot holding the outcome of the unit at its own index, and in a
    /// sequential run the filled slots standing before the empty ones.
    pub open spec fn valid(self) -> bool {
        &&& self.slots.len() == self.units.len()
        &&& ids_distinct(self.units)
        &&& forall|i: int|
            0 <= i < self.slots.len() ==> match #[trigger] self.slots[i] {
                Some(outcome) => outcome.id == self.units[i].id && outcome.status
                    == payload_result(self.units[i].should_fail),
                None => true,
            }
        &&& self.mode == ExecutionMode::Sequential ==> forall|i: int|
            0 <= i < self.slots.len() ==> ((#[trigger] self.slots[i]).is_some() <==> i
                < self.completed())
    }

    /// A completion of the unit at `index` is taken note of.
    pub open spec fn accepts(self, index: int) -> bool {
        &&& 0 <= index < self.units.len()
        &&& self.slots[index].is_none()
        &&& self.mode == ExecutionMode::Sequential ==> index == self.completed()
    }

    /// Why a completion of the unit at `index` is turned down, where it is.
    pub open spec fn rejection(self, index: int) -> RecordError {
        if index >= self.units.len() {
            RecordError::UnknownUnit
        } else if self.slots[index].is_some() {
            RecordError::AlreadyRecorded
        } else {
            RecordError::OutOfTurn
        }
    }

    /// The state after the unit at `index` completed over the given interval.
    pub open spec fn record(self, index: int, started_at: u64, finished_at: u64) -> ExecutorView {
        ExecutorView {
            slots: self.slots.update(index, Some(self.outcome_of(index, started_at, finished_at))),
            ..self
        }
    }

    /// What the driver has to do in this state.
    pub open spec fn next_action(self) -> Action {
        if self.done() {
            Action::Finish
        } else {
            match self.mode {
                ExecutionMode::Sequential => Action::RunOne {
                    index: self.completed() as usize,
                    delay: self.units[self.completed() as int].simulated_delay,
                },
                ExecutionMode::Concurrent => Action::RunPending,
            }
        }
    }

    /// The outcomes of a finished run, in input order.
    pub open spec fn outcomes(self) -> Seq<OutcomeView> {
        Seq::new(self.slots.len(), |i: int| self.slots[i].unwrap())
    }
}

/// No more slots are filled than there are, and all are filled only where
/// none is empty.
pub proof fn lemma_filled_bounds(slots: Seq<Option<OutcomeView>>)
    ensures
        filled(slots) <= slots.len(),
        filled(slots) == slots.len() <==> forall|i: int|
            0 <= i < slots.len() ==> (#[trigger] slots[i]).is_some(),
        filled(slots) == 0 <==> forall|i: int|
            0 <= i < slots.len() ==> (#[trigger] slots[i]).is_none(),
    decreases slots.len(),
{
    if slots.len() > 0 {
        let front = slots.drop_last();
        lemma_filled_bounds(front);
        assert forall|i: int| 0 <= i < front.len() implies #[trigger] front[i] == slots[i] by {}
        if filled(slots) == slots.len() {
            assert forall|i: int| 0 <= i < slots.len() implies (#[trigger] slots[i]).is_some() by {
                if i < front.len() {
                    assert(front[i].is_some());
                }
            }
        }
        if filled(slots) == 0 {
            assert forall|i: int| 0 <= i < slots.len() implies (#[trigger] slots[i]).is_none() by {
                if i < front.len() {
                    assert(front[i].is_none());
                }
            }
        }
        if forall|i: int| 0 <= i < slots.len() ==> (#[trigger] slots[i]).is_some() {
            assert forall|i: int| 0 <= i < front.len() implies (#[trigger] front[i]).is_some() by {
                assert(slots[i].is_some());
            }
            assert(slots[slots.len() - 1].is_some());
        }
        if forall|i: int| 0 <= i < slots.len() ==> (#[trigger] slots[i]).is_none() {
            assert forall|i: int| 0 <= i < front.len() implies (#[trigger] front[i]).is_none() by {
                assert(slots[i].is_none());
            }
            assert(slots[slots.len() - 1].is_none());
        }
    }
}

/// Filling an empty slot raises the count of filled slots by one.
pub proof fn lemma_filled_update(slots: Seq<Option<OutcomeView>>, index: int, outcome: OutcomeView)
    requires
        0 <= index < slots.len(),
        slots[index].is_none(),
    ensures
        filled(slots.update(index, Some(outcome))) == filled(slots) + 1,
    decreases slots.len(),
{
    let after = slots.update(index, Some(outcome));
    if index == slots.len() - 1 {
        assert(after.drop_last() == slots.drop_last());
    } else {
        lemma_filled_update(slots.drop_last(), index, outcome);
        assert(after.drop_last() == slots.drop_last().update(index, Some(outcome)));
    }
}

/// Recording a completion that is accepted keeps the invariant of the run
/// and counts one more completed unit.
pub proof fn lemma_record_keeps_valid(
    state: ExecutorView,
    index: int,
    started_at: u64,
    finished_at: u64,
)
    requires
        state.valid(),
        state.accepts(index),
    ensures
        state.record(index, started_at, finished_at).valid(),
        state.record(index, started_at, finished_at).completed() == state.completed() + 1,
{
    let after = state.record(index, started_at, finished_at);
    lemma_filled_update(state.slots, index, state.outcome_of(index, started_at, finished_at));
    assert forall|i: int| 0 <= i < after.slots.len() implies match #[trigger] after.slots[i] {
        Some(outcome) => outcome.id == after.units[i].id && outcome.status == payload_result(
            after.units[i].should_fail,
        ),
        None => true,
    } by {
        if i != index {
            assert(after.slots[i] == state.slots[i]);
        }
    }
    if state.mode == ExecutionMode::Sequential {
        assert forall|i: int| 0 <= i < after.slots.len() implies ((#[trigger] after.slots[i]).is_some()
            <==> i < after.completed()) by {
            if i != index {
                assert(after.slots[i] == state.slots[i]);
            }
        }
    }
}

/// In a concurrent run it does not matter which of two units completes
/// first: each is still accepted after the other, and the run ends up in the
/// same state.
pub proof fn lemma_completion_order_is_irrelevant(
    state: ExecutorView,
    first: int,
    first_interval: (u64, u64),
    second: int,
    second_interval: (u64, u64),
)
    requires
        state.valid(),
        state.mode == ExecutionMode::Concurrent,
        state.accepts(first),
        state.accepts(second),
        first != second,
    ensures
        state.record(first, first_interval.0, first_interval.1).accepts(second),
        state.record(second, second_interval.0, second_interval.1).accepts(first),
        state.record(first, first_interval.0, first_interval.1).record(
            second,
            second_interval.0,
            second_interval.1,
        ) == state.record(second, second_interval.0, second_interval.1).record(
            first,
            first_interval.0,
            first_interval.1,
        ),
{
    let one = state.record(first, first_interval.0, first_interval.1).record(
        second,
        second_interval.0,
        second_interval.1,
    );
    let other = state.record(second, second_interval.0, second_interval.1).record(
        first,
        first_interval.0,
        first_interval.1,
    );
    assert(one.slots =~= other.slots);
}

/// Once every unit has completed, there is one outcome for each unit, and
/// the outcome at each position is that of the unit at the same position of
/// the input, whatever the mode and the order of completion were.
pub proof fn lemma_outcomes_follow_input(state: ExecutorView)
    requires
        state.valid(),
        state.done(),
    ensures
        state.outcomes().len() == state.units.len(),
        forall|i: int|
            0 <= i < state.units.len() ==> {
                &&& (#[trigger] state.outcomes()[i]).id == state.units[i].id
                &&& state.outcomes()[i].status == payload_result(state.units[i].should_fail)
            },
{
    lemma_filled_bounds(state.slots);
    assert forall|i: int| 0 <= i < state.units.len() implies {
        &&& (#[trigger] state.outcomes()[i]).id == state.units[i].id
        &&& state.outcomes()[i].status == payload_result(state.units[i].should_fail)
    } by {
        assert(state.slots[i].is_some());
    }
}

/// A run of no units is complete before anything ran, under either mode.
pub proof fn lemma_empty_run_is_done(mode: ExecutionMode)
    ensures
        ExecutorView::initial(Seq::empty(), mode).valid(),
        ExecutorView::initial(Seq::empty(), mode).done(),
        ExecutorView::initial(Seq::empty(), mode).next_action() == Action::Finish,
        ExecutorView::initial(Seq::empty(), mode).outcomes() == Seq::<OutcomeView>::empty(),
{
    let state = ExecutorView::initial(Seq::empty(), mode);
    assert(state.slots =~= Seq::empty());
    assert(state.outcomes() =~= Seq::<OutcomeView>::empty());
}

/// A run that has not started is in order where the ids are unique, and
/// none of its units has completed.
pub proof fn lemma_initial_is_valid(units: Seq<WorkUnit>, mode: ExecutionMode)
    requires
        ids_distinct(units),
    ensures
        ExecutorView::initial(units, mode).valid(),
        ExecutorView::initial(units, mode).completed() == 0,
{
    lemma_filled_bounds(ExecutorView::initial(units, mode).slots);
}

/// The bookkeeping of one run: the units, the mode, and one slot per unit
/// that is written once, when the unit completes.
pub struct Executor {
    units: Vec<WorkUnit>,
    mode: ExecutionMode,
    slots: Vec<Option<UnitOutcome>>,
    completed: usize,
}

impl View for Executor {
    type V = ExecutorView;

    closed spec fn view(&self) -> ExecutorView {
        ExecutorView { units: self.units@, mode: self.mode, slots: slot_views(self.slots@) }
    }
}

impl Executor {
    /// The executor's own invariant: that of its model, and a counter that
    /// agrees with the slots.
    pub closed spec fn wf(&self) -> bool {
        &&& self@.valid()
        &&& self.completed == self@.completed()
    }

    /// An executor in order has a model in order.
    pub proof fn lemma_wf_model(&self)
        requires
            self.wf(),
        ensures
            self@.valid(),
    {
    }

    /// Sets up a run of `units` under `mode`. Nothing has run yet. Units
    /// that share an id are refused before anything could start.
    pub fn new(units: Vec<WorkUnit>, mode: ExecutionMode) -> (r: Result<Executor, ConfigurationError>)
        ensures
            match r {
                Ok(executor) => {
                    &&& ids_distinct(units@)
                    &&& executor.wf()
                    &&& executor@ == ExecutorView::initial(units@, mode)
                    &&& executor@.completed() == 0
                },
                Err(ConfigurationError::DuplicateId(id)) => exists|j: int|
                    #[trigger] is_first_repeat(units@, j) && id == units@[j].id,
            },
    {
        match validate(&units) {
            Err(error) => Err(error),
            Ok(()) => {
                let mut slots: Vec<Option<UnitOutcome>> = Vec::new();
                let mut i: usize = 0;
                while i < units.len()
                    invariant
                        i <= units.len(),
                        slots@.len() == i,
                        forall|k: int| 0 <= k < i ==> (#[trigger] slots@[k]).is_none(),
                    decreases units.len() - i,
                {
                    slots.push(None);
                    i += 1;
                }
                let executor = Executor { units, mode, slots, completed: 0 };
                proof {
                    assert(executor@.slots =~= ExecutorView::initial(executor@.units, mode).slots);
                    lemma_initial_is_valid(executor@.units, mode);
                }
                Ok(executor)
            },
        }
    }

    /// The mode of the run.
    pub fn mode(&self) -> (mode: ExecutionMode)
        ensures
            mode == self@.mode,
    {
        self.mode
    }

    /// The units of the run, in input order.
    pub fn units(&self) -> (units: &Vec<WorkUnit>)
        ensures
            units@ == self@.units,
    {
        &self.units
    }

    /// How many units have completed.
    pub fn completed(&self) -> (count: usize)
        requires
            self.wf(),
        ensures
            count == self@.completed(),
    {
        self.completed
    }

    /// Whether a unit stands at `index` that has not completed yet.
    pub fn is_pending(&self, index: usize) -> (pending: bool)
        requires
            self.wf(),
        ensures
            pending == (index < self@.units.len() && self@.slots[index as int].is_none()),
    {
        index < self.slots.len() && self.slots[index].is_none()
    }

    /// What the driver has to do next: in a sequential run the first unit
    /// that has not completed, in a concurrent run all of them at once, and
    /// nothing more when every unit has completed.
    pub fn next_action(&self) -> (action: Action)
        requires
            self.wf(),
        ensures
            action == self@.next_action(),
            match action {
                Action::RunOne { index, delay } => self@.accepts(index as int),
                Action::RunPending => exists|i: int| #[trigger] self@.accepts(i),
                Action::Finish => self@.done(),
            },
    {
        proof {
            lemma_filled_bounds(self@.slots);
        }
        if self.completed == self.units.len() {
            Action::Finish
        } else {
            match self.mode {
                ExecutionMode::Sequential => Action::RunOne {
                    index: self.completed,
                    delay: self.units[self.completed].simulated_delay,
                },
                ExecutionMode::Concurrent => {
                    proof {
                        let i = choose|i: int|
                            0 <= i < self@.slots.len() && !(#[trigger] self@.slots[i]).is_some();
                        assert(self@.accepts(i));
                    }
                    Action::RunPending
                },
            }
        }
    }

    /// Takes note that the unit at `index` ran from `started_at` to
    /// `finished_at`: its payload is evaluated and the outcome written to
    /// the unit's own slot. A completion that the run does not expect is
    /// turned down and changes nothing.
    pub fn record(&mut self, index: usize, started_at: u64, finished_at: u64) -> (r: Result<
        (),
        RecordError,
    >)
        requires
            old(self).wf(),
        ensures
            final(self).wf(),
            match r {
                Ok(()) => {
                    &&& old(self)@.accepts(index as int)
                    &&& final(self)@ == old(self)@.record(index as int, started_at, finished_at)
                    &&& final(self)@.completed() == old(self)@.completed() + 1
                },
                Err(error) => {
                    &&& !old(self)@.accepts(index as int)
                    &&& error == old(self)@.rejection(index as int)
                    &&& final(self)@ == old(self)@
                },
            },
    {
        if index >= self.units.len() {
            return Err(RecordError::UnknownUnit);
        }
        if self.slots[index].is_some() {
            return Err(RecordError::AlreadyRecorded);
        }
        if self.mode == ExecutionMode::Sequential && index != self.completed {
            return Err(RecordError::OutOfTurn);
        }
        let unit = self.units[index];
        let status = match risky_operation(unit.should_fail) {
            Ok(value) => UnitStatus::Success(value),
            Err(reason) => UnitStatus::Failure(reason.to_owned()),
        };
        let outcome = UnitOutcome { id: unit.id, status, started_at, finished_at };
        proof {
            lemma_filled_bounds(self@.slots);
            lemma_record_keeps_valid(self@, index as int, started_at, finished_at);
            assert(outcome@ == self@.outcome_of(index as int, started_at, finished_at));
        }
        self.slots.set(index, Some(outcome));
        self.completed = self.completed + 1;
        proof {
            assert(self@.slots =~= old(self)@.record(
                index as int,
                started_at,
                finished_at,
            ).slots);
        }
        Ok(())
    }

    /// Ends the run and hands out its report, with the outcomes in input
    /// order whatever the order in which they were recorded. `measured` is
    /// the duration of the whole run in milliseconds; a run of no units
    /// took no time. There is no report while a unit is still pending.
    pub fn finish(self, measured: u64) -> (r: Option<RunReport>)
        requires
            self.wf(),
        ensures
            match r {
                Some(report) => {
                    &&& self@.done()
                    &&& report.mode == self@.mode
                    &&& report.describes(self@.units)
                    &&& outcome_views(report.outcomes@) == self@.outcomes()
                    &&& report.total_elapsed == if self@.units.len() == 0 {
                        0
                    } else {
                        measured
                    }
                },
                None => !self@.done(),
            },
    {
        let count = self.units.len();
        if self.completed != count {
            return None;
        }
        proof {
            lemma_filled_bounds(self@.slots);
        }
        let ghost model = self@;
        let mode = self.mode;
        let mut slots = self.slots;
        let mut outcomes: Vec<UnitOutcome> = Vec::new();
        let mut i: usize = 0;
        while i < count
            invariant
                i <= count,
                count == slots@.len(),
                count == model.slots.len(),
                outcomes@.len() == i,
                forall|k: int| i <= k < count ==> slot_views(slots@)[k] == #[trigger] model.slots[k],
                forall|k: int| 0 <= k < count ==> (#[trigger] model.slots[k]).is_some(),
                forall|k: int| 0 <= k < i ==> (#[trigger] outcomes@[k])@ == model.slots[k].unwrap(),
            decreases count - i,
        {
            assert(slot_views(slots@)[i as int] == model.slots[i as int]);
            let slot = slots[i].take();
            outcomes.push(slot.unwrap());
            i += 1;
        }
        proof {
            assert(outcome_views(outcomes@) =~= model.outcomes());
            assert forall|k: int| 0 <= k < count implies (#[trigger] outcomes@[k]).id
                == model.units[k].id && outcomes@[k].status@ == payload_result(
                model.units[k].should_fail,
            ) by {
                assert(model.slots[k].is_some());
            }
        }
        let total_elapsed: u64 = if count == 0 {
            0
        } else {
            measured
        };
        Some(RunReport { mode, outcomes, total_elapsed })
    }
}

} // verus!
