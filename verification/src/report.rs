//! Per-unit outcomes, the report of one run, and its split into successes
//! and failures.

use crate::work::{payload_result, ExecutionMode, StatusView, WorkUnit};
use vstd::prelude::*;

verus! {

/// How one unit ended.
#[derive(Clone, Debug, PartialEq, Eq)]
pub enum UnitStatus {
    /// The payload produced this value.
    Success(String),
    /// The payload failed for this reason.
    Failure(String),
}

impl View for UnitStatus {
    type V = StatusView;

    open spec fn view(&self) -> StatusView {
        match self {
            UnitStatus::Success(value) => StatusView::Success(value@),
            UnitStatus::Failure(reason) => StatusView::Failure(reason@),
        }
    }
}

/// The record of one unit's execution. Times are milliseconds on the
/// monotonic clock of the run.
#[derive(Clone, Debug, PartialEq, Eq)]
pub struct UnitOutcome {
    pub id: u32,
    pub status: UnitStatus,
    pub started_at: u64,
    pub finished_at: u64,
}

/// The mathematical model of a `UnitOutcome`.
pub struct OutcomeView {
    pub id: u32,
    pub status: StatusView,
    pub started_at: u64,
    pub finished_at: u64,
}

impl View for UnitOutcome {
    type V = OutcomeView;

    open spec fn view(&self) -> OutcomeView {
        OutcomeView {
            id: self.id,
            status: self.status@,
            started_at: self.started_at,
            finished_at: self.finished_at,
        }
    }
}

/// The models of a sequence of outcomes, in the same order.
pub open spec fn outcome_views(outcomes: Seq<UnitOutcome>) -> Seq<OutcomeView> {
    Seq::new(outcomes.len(), |i: int| outcomes[i]@)
}

/// The complete result of running a set of units under one mode.
#[derive(Clone, Debug, PartialEq, Eq)]
pub struct RunReport {
    pub mode: ExecutionMode,
    /// One outcome per unit, in input order.
    pub outcomes: Vec<UnitOutcome>,
    /// Measured duration of the whole run, in milliseconds.
    pub total_elapsed: u64,
}

impl RunReport {
    /// The report holds one outcome for each of `units`, at the position of
    /// its unit, with the unit's id and the result of the unit's payload.
    pub open spec fn describes(&self, units: Seq<WorkUnit>) -> bool {
        &&& self.outcomes@.len() == units.len()
        &&& forall|i: int|
            0 <= i < units.len() ==> {
                &&& (#[trigger] self.outcomes@[i]).id == units[i].id
                &&& self.outcomes@[i].status@ == payload_result(units[i].should_fail)
            }
    }
}

/// A report split into the units that succeeded and those that failed.
#[derive(Clone, Debug, PartialEq, Eq)]
pub struct Aggregate {
    /// `(id, value)` of each success, in report order.
    pub successes: Vec<(u32, String)>,
    /// `(id, reason)` of each failure, in report order.
    pub failures: Vec<(u32, String)>,
}

/// The models of a sequence of `(id, text)` pairs, in the same order.
pub open spec fn pair_views(pairs: Seq<(u32, String)>) -> Seq<(u32, Seq<char>)> {
    Seq::new(pairs.len(), |i: int| (pairs[i].0, pairs[i].1@))
}

/// The successes among `outcomes`, as `(id, value)` in the order in which they stand there.
pub open spec fn successes_of(outcomes: Seq<OutcomeView>) -> Seq<(u32, Seq<char>)>
    decreases outcomes.len(),
{
    if outcomes.len() == 0 {
        Seq::empty()
    } else {
        let earlier = successes_of(outcomes.drop_last());
        match outcomes.last().status {
            StatusView::Success(value) => earlier.push((outcomes.last().id, value)),
            StatusView::Failure(_) => earlier,
        }
    }
}

/// The failures among `outcomes`, as `(id, reason)` in the order in which they stand there.
pub open spec fn failures_of(outcomes: Seq<OutcomeView>) -> Seq<(u32, Seq<char>)>
    decreases outcomes.len(),
{
    if outcomes.len() == 0 {
        Seq::empty()
    } else {
        let earlier = failures_of(outcomes.drop_last());
        match outcomes.last().status {
            StatusView::Success(_) => earlier,
            StatusView::Failure(reason) => earlier.push((outcomes.last().id, reason)),
        }
    }
}

/// Every outcome is either a success or a failure: the two partitions
/// together are as long as the sequence they were taken from.
pub proof fn lemma_partition_is_total(outcomes: Seq<OutcomeView>)
    ensures
        successes_of(outcomes).len() + failures_of(outcomes).len() == outcomes.len(),
    decreases outcomes.len(),
{
    if outcomes.len() > 0 {
        lemma_partition_is_total(outcomes.drop_last());
    }
}

/// Splits a report into its successes and its failures, each in the order
/// in which they stand in the report.
pub fn aggregate(report: &RunReport) -> (agg: Aggregate)
    ensures
        pair_views(agg.successes@) == successes_of(outcome_views(report.outcomes@)),
        pair_views(agg.failures@) == failures_of(outcome_views(report.outcomes@)),
        agg.successes.len() + agg.failures.len() == report.outcomes.len(),
{
    let mut successes: Vec<(u32, String)> = Vec::new();
    let mut failures: Vec<(u32, String)> = Vec::new();
    let ghost all = outcome_views(report.outcomes@);
    let mut i: usize = 0;
    while i < report.outcomes.len()
        invariant
            i <= report.outcomes.len(),
            all == outcome_views(report.outcomes@),
            pair_views(successes@) == successes_of(all.take(i as int)),
            pair_views(failures@) == failures_of(all.take(i as int)),
        decreases report.outcomes.len() - i,
    {
        let outcome = &report.outcomes[i];
        proof {
            assert(all.take(i + 1).drop_last() == all.take(i as int));
            assert(all.take(i + 1).last() == outcome@);
        }
        match &outcome.status {
            UnitStatus::Success(value) => {
                successes.push((outcome.id, value.clone()));
                assert(pair_views(successes@) == successes_of(all.take(i + 1)));
            },
            UnitStatus::Failure(reason) => {
                failures.push((outcome.id, reason.clone()));
                assert(pair_views(failures@) == failures_of(all.take(i + 1)));
            },
        }
        i += 1;
    }
    proof {
        assert(all.take(i as int) == all);
        lemma_partition_is_total(all);
    }
    Aggregate { successes, failures }
}

} // verus!
