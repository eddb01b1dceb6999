//! A single-process, in-memory harness that times units of simulated work
//! run one after another or all at once.

pub mod clock;
pub mod executor;
pub mod options;
pub mod report;
pub mod speedup;
pub mod text;
pub mod timing;
pub mod work;
