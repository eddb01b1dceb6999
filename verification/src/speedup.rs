//! Contrasting a sequential run with a concurrent one.

use crate::report::RunReport;
use vstd::prelude::*;

verus! {

/// Why two reports could not be contrasted.
#[derive(Clone, Copy, Debug, PartialEq, Eq, Structural)]
pub enum SpeedupError {
    /// The concurrent run took no measurable time while the sequential one did.
    DivisionByZero,
}

/// The elapsed times of two runs. The speedup is their quotient,
/// sequential over concurrent, computed from them whenever it is asked for.
#[derive(Clone, Copy, Debug, PartialEq, Eq, Structural)]
pub struct SpeedupReport {
    /// Elapsed time of the sequential run, in milliseconds.
    pub sequential_elapsed: u64,
    /// Elapsed time of the concurrent run, in milliseconds.
    pub concurrent_elapsed: u64,
}

impl SpeedupReport {
    /// The speedup in hundredths, rounded down; undefined where the
    /// concurrent run took no time.
    pub open spec fn spec_ratio_hundredths(self) -> Option<int> {
        if self.concurrent_elapsed == 0 {
            None
        } else {
            Some(self.sequential_elapsed * 100 / (self.concurrent_elapsed as int))
        }
    }

    /// The speedup in hundredths, rounded down: 300 says that the sequential
    /// run took three times as long. There is none where the concurrent run
    /// took no time.
    pub fn ratio_hundredths(&self) -> (ratio: Option<u128>)
        ensures
            match ratio {
                Some(hundredths) => self.spec_ratio_hundredths() == Some(hundredths as int),
                None => self.spec_ratio_hundredths().is_none(),
            },
    {
        if self.concurrent_elapsed == 0 {
            None
        } else {
            let scaled: u128 = (self.sequential_elapsed as u128) * 100;
            Some(scaled / (self.concurrent_elapsed as u128))
        }
    }
}

/// Contrasts the elapsed times of a sequential and a concurrent run. Whether
/// the two ran the same units is not looked at. A concurrent run of no
/// duration against a sequential run of some duration has no ratio and is
/// refused.
pub fn compare(sequential: &RunReport, concurrent: &RunReport) -> (r: Result<
    SpeedupReport,
    SpeedupError,
>)
    ensures
        r == if concurrent.total_elapsed == 0 && sequential.total_elapsed != 0 {
            Err::<SpeedupReport, SpeedupError>(SpeedupError::DivisionByZero)
        } else {
            Ok(
                (SpeedupReport {
                    sequential_elapsed: sequential.total_elapsed,
                    concurrent_elapsed: concurrent.total_elapsed,
                }),
            )
        },
{
    if concurrent.total_elapsed == 0 && sequential.total_elapsed != 0 {
        Err(SpeedupError::DivisionByZero)
    } else {
        Ok(
            SpeedupReport {
                sequential_elapsed: sequential.total_elapsed,
                concurrent_elapsed: concurrent.total_elapsed,
            },
        )
    }
}

/// Where one run took a whole number of times as long as the other, the
/// speedup is that number.
pub proof fn lemma_ratio_of_multiple(report: SpeedupReport, times: nat)
    requires
        report.concurrent_elapsed > 0,
        report.sequential_elapsed == times * report.concurrent_elapsed,
    ensures
        report.spec_ratio_hundredths() == Some(100 * times as int),
{
    let c = report.concurrent_elapsed as int;
    let whole = 100 * times as int;
    assert(report.sequential_elapsed * 100 == c * whole) by (nonlinear_arith)
        requires
            report.sequential_elapsed == times * c,
            whole == 100 * times,
    ;
    vstd::arithmetic::div_mod::lemma_div_multiples_vanish(whole, c);
}

} // verus!
