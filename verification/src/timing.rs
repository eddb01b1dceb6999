//! What the delays of a set of units say about the duration of a run: the
//! least time a run can take under each mode, and the timeline of a run that
//! loses no time between its units.

use crate::executor::{
    ids_distinct, is_first_repeat, lemma_filled_bounds, Action, ConfigurationError, Executor,
};
use crate::report::{outcome_views, OutcomeView, RunReport};
use crate::work::{payload_result, ExecutionMode, WorkUnit};
use vstd::prelude::*;

verus! {

/// The sum of the delays of `units`, in milliseconds.
pub open spec fn total_delay(units: Seq<WorkUnit>) -> nat
    decreases units.len(),
{
    if units.len() == 0 {
        0
    } else {
        total_delay(units.drop_last()) + units.last().simulated_delay as nat
    }
}

/// The largest delay among `units`, in milliseconds: the critical path of a
/// concurrent run. Zero where there is no unit.
pub open spec fn longest_delay(units: Seq<WorkUnit>) -> nat
    decreases units.len(),
{
    if units.len() == 0 {
        0
    } else {
        let earlier = longest_delay(units.drop_last());
        if units.last().simulated_delay > earlier {
            units.last().simulated_delay as nat
        } else {
            earlier
        }
    }
}

/// The least time that a run of `units` takes under `mode`: the sum of the
/// delays where the units wait one after another, the largest delay where
/// they wait together.
pub open spec fn elapsed_floor(units: Seq<WorkUnit>, mode: ExecutionMode) -> nat {
    match mode {
        ExecutionMode::Sequential => total_delay(units),
        ExecutionMode::Concurrent => longest_delay(units),
    }
}

/// The delays of the first units of a sequence sum to no more than those of
/// the whole sequence.
pub proof fn lemma_total_delay_of_prefix(units: Seq<WorkUnit>, count: int)
    requires
        0 <= count <= units.len(),
    ensures
        total_delay(units.take(count)) <= total_delay(units),
        count < units.len() ==> total_delay(units.take(count + 1)) == total_delay(
            units.take(count),
        ) + units[count].simulated_delay,
    decreases units.len() - count,
{
    if count < units.len() {
        assert(units.take(count + 1).drop_last() == units.take(count));
        lemma_total_delay_of_prefix(units, count + 1);
    } else {
        assert(units.take(count) == units);
    }
}

/// No delay is larger than the largest, and the largest is no larger than
/// the sum of all.
pub proof fn lemma_longest_delay_bounds(units: Seq<WorkUnit>)
    ensures
        longest_delay(units) <= total_delay(units),
        forall|i: int|
            0 <= i < units.len() ==> (#[trigger] units[i]).simulated_delay <= longest_delay(units),
        units.len() > 0 ==> exists|i: int|
            0 <= i < units.len() && (#[trigger] units[i]).simulated_delay == longest_delay(units),
    decreases units.len(),
{
    if units.len() > 0 {
        let front = units.drop_last();
        lemma_longest_delay_bounds(front);
        assert forall|i: int| 0 <= i < units.len() implies (#[trigger] units[i]).simulated_delay
            <= longest_delay(units) by {
            if i < front.len() {
                assert(front[i] == units[i]);
            }
        }
        if units.last().simulated_delay > longest_delay(front) || front.len() == 0 {
            assert(units[units.len() - 1].simulated_delay == longest_delay(units));
        } else {
            let i = choose|i: int|
                0 <= i < front.len() && (#[trigger] front[i]).simulated_delay == longest_delay(
                    front,
                );
            assert(units[i] == front[i]);
        }
    }
}

/// Units that all wait `delay` take that delay once for each unit when they
/// run one after another, and that delay once when they run together.
pub proof fn lemma_uniform_delays(units: Seq<WorkUnit>, delay: u64)
    requires
        forall|i: int| 0 <= i < units.len() ==> (#[trigger] units[i]).simulated_delay == delay,
    ensures
        elapsed_floor(units, ExecutionMode::Sequential) == units.len() * delay,
        units.len() > 0 ==> elapsed_floor(units, ExecutionMode::Concurrent) == delay,
    decreases units.len(),
{
    if units.len() > 0 {
        let front = units.drop_last();
        assert forall|i: int| 0 <= i < front.len() implies (#[trigger] front[i]).simulated_delay
            == delay by {
            assert(front[i] == units[i]);
        }
        lemma_uniform_delays(front, delay);
        assert(units[units.len() - 1].simulated_delay == delay);
        assert(front.len() == 0 ==> longest_delay(front) == 0);
        assert(front.len() * delay + delay == units.len() * delay) by (nonlinear_arith)
            requires
                front.len() + 1 == units.len(),
        ;
    }
}

/// Where two different units both wait, waiting together takes less time
/// than waiting in turn.
pub proof fn lemma_overlap_saves_time(units: Seq<WorkUnit>, first: int, second: int)
    requires
        0 <= first < second < units.len(),
        units[first].simulated_delay > 0,
        units[second].simulated_delay > 0,
    ensures
        elapsed_floor(units, ExecutionMode::Concurrent) < elapsed_floor(
            units,
            ExecutionMode::Sequential,
        ),
    decreases units.len(),
{
    let front = units.drop_last();
    assert(front[first] == units[first]);
    if second == units.len() - 1 {
        lemma_longest_delay_bounds(front);
        lemma_delay_within_total(front, first);
    } else {
        assert(front[second] == units[second]);
        lemma_overlap_saves_time(front, first, second);
    }
}

/// The delay of one unit is no larger than the sum of all.
pub proof fn lemma_delay_within_total(units: Seq<WorkUnit>, index: int)
    requires
        0 <= index < units.len(),
    ensures
        units[index].simulated_delay <= total_delay(units),
{
    lemma_longest_delay_bounds(units);
}

/// The sum of the delays of `units`, where it fits the width used in reports.
pub fn sum_of_delays(units: &Vec<WorkUnit>) -> (r: Option<u64>)
    ensures
        match r {
            Some(sum) => sum == total_delay(units@),
            None => total_delay(units@) > u64::MAX,
        },
{
    let mut sum: u64 = 0;
    let mut i: usize = 0;
    while i < units.len()
        invariant
            i <= units.len(),
            sum == total_delay(units@.take(i as int)),
        decreases units.len() - i,
    {
        proof {
            lemma_total_delay_of_prefix(units@, i as int);
            lemma_total_delay_of_prefix(units@, i + 1);
        }
        match sum.checked_add(units[i].simulated_delay) {
            Some(next) => {
                sum = next;
            },
            None => {
                return None;
            },
        }
        i += 1;
    }
    proof {
        assert(units@.take(i as int) == units@);
    }
    Some(sum)
}

/// The largest delay among `units`, zero where there is none.
pub fn critical_path(units: &Vec<WorkUnit>) -> (longest: u64)
    ensures
        longest == longest_delay(units@),
{
    let mut longest: u64 = 0;
    let mut i: usize = 0;
    while i < units.len()
        invariant
            i <= units.len(),
            longest == longest_delay(units@.take(i as int)),
        decreases units.len() - i,
    {
        proof {
            assert(units@.take(i + 1).drop_last() == units@.take(i as int));
        }
        if units[i].simulated_delay > longest {
            longest = units[i].simulated_delay;
        }
        i += 1;
    }
    proof {
        assert(units@.take(i as int) == units@);
    }
    longest
}

/// Whether the elapsed time of `report` is at least what the delays of
/// `units` ask for under the report's mode.
pub fn meets_floor(report: &RunReport, units: &Vec<WorkUnit>) -> (ok: bool)
    ensures
        ok == (report.total_elapsed >= elapsed_floor(units@, report.mode)),
{
    match report.mode {
        ExecutionMode::Sequential => match sum_of_delays(units) {
            Some(sum) => report.total_elapsed >= sum,
            None => false,
        },
        ExecutionMode::Concurrent => report.total_elapsed >= critical_path(units),
    }
}

/// When the unit at `index` starts in a run that loses no time: after the
/// units before it where they run in turn, at once where they run together.
pub open spec fn ideal_start(units: Seq<WorkUnit>, mode: ExecutionMode, index: int) -> nat {
    match mode {
        ExecutionMode::Sequential => total_delay(units.take(index)),
        ExecutionMode::Concurrent => 0,
    }
}

/// The outcome of the unit at `index` in a run that loses no time.
pub open spec fn ideal_outcome(units: Seq<WorkUnit>, mode: ExecutionMode, index: int) -> OutcomeView {
    OutcomeView {
        id: units[index].id,
        status: payload_result(units[index].should_fail),
        started_at: ideal_start(units, mode, index) as u64,
        finished_at: (ideal_start(units, mode, index) + units[index].simulated_delay) as u64,
    }
}

/// The outcomes of a run that loses no time, in input order.
pub open spec fn ideal_outcomes(units: Seq<WorkUnit>, mode: ExecutionMode) -> Seq<OutcomeView> {
    Seq::new(units.len(), |i: int| ideal_outcome(units, mode, i))
}

/// Runs `units` under `mode` on a clock that only the delays advance: no
/// time is lost between units, so the run takes exactly the least time that
/// the mode allows. Nothing waits. Units that share an id are refused.
pub fn simulate(units: Vec<WorkUnit>, mode: ExecutionMode) -> (r: Result<
    RunReport,
    ConfigurationError,
>)
    requires
        mode == ExecutionMode::Sequential ==> total_delay(units@) <= u64::MAX,
    ensures
        match r {
            Ok(report) => {
                &&& ids_distinct(units@)
                &&& report.mode == mode
                &&& report.describes(units@)
                &&& outcome_views(report.outcomes@) == ideal_outcomes(units@, mode)
                &&& report.total_elapsed == elapsed_floor(units@, mode)
            },
            Err(ConfigurationError::DuplicateId(id)) => exists|j: int|
                #[trigger] is_first_repeat(units@, j) && id == units@[j].id,
        },
{
    let ghost all = units@;
    let count = units.len();
    let mut executor = match Executor::new(units, mode) {
        Ok(executor) => executor,
        Err(error) => {
            return Err(error);
        },
    };
    let mut clock: u64 = 0;
    proof {
        lemma_filled_bounds(executor@.slots);
        assert(all.take(0) =~= Seq::<WorkUnit>::empty());
    }
    loop
        invariant
            executor.wf(),
            executor@.units == all,
            executor@.mode == mode,
            executor@.slots.len() == all.len(),
            count == all.len(),
            mode == ExecutionMode::Sequential ==> total_delay(all) <= u64::MAX,
            executor@.completed() <= all.len(),
            mode == ExecutionMode::Sequential ==> clock == total_delay(
                all.take(executor@.completed() as int),
            ),
            forall|i: int|
                0 <= i < all.len() ==> ((#[trigger] executor@.slots[i]).is_none()
                    || executor@.slots[i] == Some(ideal_outcome(all, mode, i))),
        ensures
            executor.wf(),
            executor@.units == all,
            executor@.mode == mode,
            executor@.slots.len() == all.len(),
            executor@.done(),
            mode == ExecutionMode::Sequential ==> clock == total_delay(all),
            forall|i: int|
                0 <= i < all.len() ==> ((#[trigger] executor@.slots[i]).is_none()
                    || executor@.slots[i] == Some(ideal_outcome(all, mode, i))),
        decreases all.len() - executor@.completed(),
    {
        match executor.next_action() {
            Action::Finish => {
                proof {
                    assert(all.take(all.len() as int) == all);
                }
                break ;
            },
            Action::RunOne { index, delay } => {
                proof {
                    lemma_total_delay_of_prefix(all, index as int);
                    lemma_total_delay_of_prefix(all, index + 1);
                }
                let started_at = clock;
                let finished_at = clock + delay;
                let recorded = executor.record(index, started_at, finished_at);
                assert(recorded.is_ok());
                clock = finished_at;
            },
            Action::RunPending => {
                let mut i: usize = 0;
                while i < count
                    invariant
                        i <= count,
                        executor.wf(),
                        executor@.units == all,
                        executor@.mode == mode,
                        mode == ExecutionMode::Concurrent,
                        executor@.slots.len() == all.len(),
                        count == all.len(),
                        forall|k: int| 0 <= k < i ==> (#[trigger] executor@.slots[k]).is_some(),
                        forall|k: int|
                            0 <= k < all.len() ==> ((#[trigger] executor@.slots[k]).is_none()
                                || executor@.slots[k] == Some(ideal_outcome(all, mode, k))),
                    decreases count - i,
                {
                    if executor.is_pending(i) {
                        let delay = executor.units()[i].simulated_delay;
                        let recorded = executor.record(i, 0, delay);
                        assert(recorded.is_ok());
                    }
                    i += 1;
                }
                proof {
                    lemma_filled_bounds(executor@.slots);
                }
            },
        }
    }
    let total = match mode {
        ExecutionMode::Sequential => clock,
        ExecutionMode::Concurrent => critical_path(executor.units()),
    };
    proof {
        lemma_filled_bounds(executor@.slots);
        assert(executor@.outcomes() =~= ideal_outcomes(all, mode));
        assert(all.len() == 0 ==> elapsed_floor(all, mode) == 0);
    }
    let report = executor.finish(total);
    Ok(report.unwrap())
}

} // verus!
