//! Units of simulated work and the computations they carry.

use vstd::prelude::*;

verus! {

/// How a set of work units is run.
#[derive(Clone, Copy, Debug, PartialEq, Eq, Structural)]
pub enum ExecutionMode {
    /// One unit at a time, in input order.
    Sequential,
    /// All units at once, their waits overlapping.
    Concurrent,
}

/// One unit of simulated work: who it is, how long it waits, and whether
/// its payload fails once the wait is over.
#[derive(Clone, Copy, Debug, PartialEq, Eq, Structural)]
pub struct WorkUnit {
    /// Identity of the unit, unique within one run.
    pub id: u32,
    /// Artificial delay before the payload produces its result, in milliseconds.
    pub simulated_delay: u64,
    /// Whether the payload fails.
    pub should_fail: bool,
}

/// What a unit's payload produced, in the mathematical model.
pub enum StatusView {
    Success(Seq<char>),
    Failure(Seq<char>),
}

/// The value of a payload that went well.
pub open spec fn success_text() -> Seq<char> {
    "Operation succeeded!"@
}

/// The reason given by a payload that failed.
pub open spec fn failure_text() -> Seq<char> {
    "Operation failed!"@
}

/// The result of a unit's payload as a function of its failure flag.
pub open spec fn payload_result(should_fail: bool) -> StatusView {
    if should_fail {
        StatusView::Failure(failure_text())
    } else {
        StatusView::Success(success_text())
    }
}

impl WorkUnit {
    /// A unit with the given identity, delay in milliseconds and failure flag.
    pub fn new(id: u32, simulated_delay: u64, should_fail: bool) -> (unit: WorkUnit)
        ensures
            unit == (WorkUnit { id, simulated_delay, should_fail }),
    {
        WorkUnit { id, simulated_delay, should_fail }
    }
}

/// The payload of a unit: a fallible operation that yields a value, or the
/// reason it failed when `should_fail` is set.
pub fn risky_operation(should_fail: bool) -> (r: Result<String, &'static str>)
    ensures
        match r {
            Ok(value) => payload_result(should_fail) == StatusView::Success(value@),
            Err(reason) => payload_result(should_fail) == StatusView::Failure(reason@),
        },
{
    if should_fail {
        Err("Operation failed!")
    } else {
        Ok("Operation succeeded!".to_owned())
    }
}

/// A fixed greeting for callers outside this crate.
pub fn public_async_function() -> (text: String)
    ensures
        text@ == "This is a public async function"@,
{
    "This is a public async function".to_owned()
}

/// Adds two numbers: the value that a summing unit produces once its wait is over.
pub fn calculate_sum(a: u32, b: u32) -> (sum: u32)
    requires
        a + b <= u32::MAX,
    ensures
        sum == a + b,
{
    a + b
}

} // verus!
