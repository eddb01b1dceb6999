use task_harness::clock::saturate_millis;
use task_harness::executor::{validate, Action, ConfigurationError, Executor, RecordError};
use task_harness::report::{aggregate, RunReport, UnitStatus};
use task_harness::speedup::compare;
use task_harness::timing::{meets_floor, simulate};
use task_harness::work::{ExecutionMode, WorkUnit};

fn three_units() -> Vec<WorkUnit> {
    vec![WorkUnit::new(1, 100, false), WorkUnit::new(2, 100, false), WorkUnit::new(3, 100, false)]
}

/// Drives a run on a made-up clock. In a concurrent run the units complete
/// in the order given by `completion`.
fn drive(units: Vec<WorkUnit>, mode: ExecutionMode, completion: &[usize]) -> RunReport {
    let mut executor = Executor::new(units, mode).expect("unique ids");
    let mut clock: u64 = 0;
    loop {
        match executor.next_action() {
            Action::Finish => break,
            Action::RunOne { index, delay } => {
                executor.record(index, clock, clock + delay).expect("the unit handed out");
                clock += delay;
            }
            Action::RunPending => {
                let mut latest = 0;
                for &index in completion {
                    assert!(executor.is_pending(index));
                    let delay = executor.units()[index].simulated_delay;
                    executor.record(index, clock, clock + delay).expect("a pending unit");
                    latest = latest.max(clock + delay);
                }
                clock = latest;
            }
        }
    }
    executor.finish(clock).expect("every unit completed")
}

/// Drives a run on the tokio timer. The waits of a concurrent run are all
/// started before the first is awaited, so they overlap.
fn drive_on_timer(units: Vec<WorkUnit>, mode: ExecutionMode) -> RunReport {
    let runtime = tokio::runtime::Builder::new_current_thread().enable_time().build().unwrap();
    runtime.block_on(async {
        let mut executor = Executor::new(units, mode).expect("unique ids");
        let origin = std::time::Instant::now();
        loop {
            match executor.next_action() {
                Action::Finish => break,
                Action::RunOne { index, delay } => {
                    let started_at = saturate_millis(origin.elapsed().as_millis());
                    tokio::time::sleep(std::time::Duration::from_millis(delay)).await;
                    let finished_at = saturate_millis(origin.elapsed().as_millis());
                    executor.record(index, started_at, finished_at).unwrap();
                }
                Action::RunPending => {
                    let started_at = saturate_millis(origin.elapsed().as_millis());
                    let mut waits = Vec::new();
                    for index in 0..executor.units().len() {
                        if executor.is_pending(index) {
                            let delay = executor.units()[index].simulated_delay;
                            waits.push((index, tokio::time::sleep(std::time::Duration::from_millis(delay))));
                        }
                    }
                    for (index, wait) in waits {
                        wait.await;
                        let finished_at = saturate_millis(origin.elapsed().as_millis());
                        executor.record(index, started_at, finished_at).unwrap();
                    }
                }
            }
        }
        let elapsed = saturate_millis(origin.elapsed().as_millis());
        executor.finish(elapsed).expect("every unit completed")
    })
}

#[test]
fn three_units_on_the_tokio_timer() {
    let sequential = drive_on_timer(three_units(), ExecutionMode::Sequential);
    assert!(sequential.total_elapsed >= 300);
    assert!(meets_floor(&sequential, &three_units()));
    assert_eq!(aggregate(&sequential).successes.len(), 3);
    let concurrent = drive_on_timer(three_units(), ExecutionMode::Concurrent);
    assert!(concurrent.total_elapsed >= 100);
    assert!(meets_floor(&concurrent, &three_units()));
    assert_eq!(aggregate(&concurrent).successes.len(), 3);
    assert!(concurrent.total_elapsed < sequential.total_elapsed);
    let speedup = compare(&sequential, &concurrent).unwrap();
    assert!(speedup.ratio_hundredths().unwrap() > 100);
    for outcome in sequential.outcomes.iter().chain(concurrent.outcomes.iter()) {
        assert!(outcome.finished_at >= outcome.started_at + 100);
    }
}

#[test]
fn report_has_one_outcome_per_unit() {
    for mode in [ExecutionMode::Sequential, ExecutionMode::Concurrent] {
        let report = drive(three_units(), mode, &[0, 1, 2]);
        assert_eq!(report.outcomes.len(), 3);
        assert_eq!(report.mode, mode);
    }
}

#[test]
fn outcomes_follow_input_order_whatever_completes_first() {
    let units = vec![WorkUnit::new(30, 5, false), WorkUnit::new(10, 50, true), WorkUnit::new(20, 1, false)];
    let orders: [[usize; 3]; 6] = [[0, 1, 2], [0, 2, 1], [1, 0, 2], [1, 2, 0], [2, 0, 1], [2, 1, 0]];
    for order in orders.iter() {
        let report = drive(units.clone(), ExecutionMode::Concurrent, order);
        let ids: Vec<u32> = report.outcomes.iter().map(|o| o.id).collect();
        assert_eq!(ids, vec![30, 10, 20]);
        assert_eq!(report.outcomes[1].status, UnitStatus::Failure("Operation failed!".to_string()));
        assert_eq!(report.outcomes[0].finished_at, 5);
        assert_eq!(report.outcomes[1].finished_at, 50);
        assert_eq!(report.outcomes[2].finished_at, 1);
    }
    let sequential = drive(units, ExecutionMode::Sequential, &[]);
    let ids: Vec<u32> = sequential.outcomes.iter().map(|o| o.id).collect();
    assert_eq!(ids, vec![30, 10, 20]);
}

#[test]
fn empty_run_finishes_at_once_with_no_elapsed_time() {
    for mode in [ExecutionMode::Sequential, ExecutionMode::Concurrent] {
        let executor = Executor::new(Vec::new(), mode).expect("no ids, no duplicates");
        assert_eq!(executor.next_action(), Action::Finish);
        let report = executor.finish(17).expect("nothing is pending");
        assert!(report.outcomes.is_empty());
        assert_eq!(report.total_elapsed, 0);
        assert_eq!(report.mode, mode);
    }
}

#[test]
fn three_equal_units_sequential_and_concurrent() {
    let sequential = drive(three_units(), ExecutionMode::Sequential, &[]);
    assert_eq!(sequential.total_elapsed, 300);
    assert_eq!(aggregate(&sequential).successes.len(), 3);
    assert_eq!(aggregate(&sequential).failures.len(), 0);
    let concurrent = drive(three_units(), ExecutionMode::Concurrent, &[2, 0, 1]);
    assert_eq!(concurrent.total_elapsed, 100);
    assert_eq!(aggregate(&concurrent).successes.len(), 3);
    let speedup = compare(&sequential, &concurrent).expect("a nonzero concurrent time");
    assert_eq!(speedup.sequential_elapsed, 300);
    assert_eq!(speedup.concurrent_elapsed, 100);
    assert_eq!(speedup.ratio_hundredths(), Some(300));
}

#[test]
fn one_failing_unit_does_not_stop_the_other() {
    for mode in [ExecutionMode::Sequential, ExecutionMode::Concurrent] {
        let units = vec![WorkUnit::new(7, 10, true), WorkUnit::new(8, 20, false)];
        let report = drive(units, mode, &[1, 0]);
        assert_eq!(report.outcomes.len(), 2);
        assert_eq!(report.outcomes[0].id, 7);
        assert_eq!(report.outcomes[0].status, UnitStatus::Failure("Operation failed!".to_string()));
        assert_eq!(report.outcomes[1].id, 8);
        assert_eq!(report.outcomes[1].status, UnitStatus::Success("Operation succeeded!".to_string()));
        let split = aggregate(&report);
        assert_eq!(split.successes, vec![(8, "Operation succeeded!".to_string())]);
        assert_eq!(split.failures, vec![(7, "Operation failed!".to_string())]);
    }
}

#[test]
fn duplicate_ids_are_refused_before_anything_runs() {
    let units = vec![WorkUnit::new(1, 10, false), WorkUnit::new(2, 10, false), WorkUnit::new(1, 10, false)];
    for mode in [ExecutionMode::Sequential, ExecutionMode::Concurrent] {
        match Executor::new(units.clone(), mode) {
            Err(error) => assert_eq!(error, ConfigurationError::DuplicateId(1)),
            Ok(_) => panic!("duplicate ids were accepted"),
        }
        assert_eq!(simulate(units.clone(), mode), Err(ConfigurationError::DuplicateId(1)));
    }
}

#[test]
fn validate_names_the_first_id_that_repeats() {
    let units = vec![
        WorkUnit::new(5, 0, false),
        WorkUnit::new(6, 0, false),
        WorkUnit::new(7, 0, false),
        WorkUnit::new(6, 0, false),
        WorkUnit::new(5, 0, false),
    ];
    assert_eq!(validate(&units), Err(ConfigurationError::DuplicateId(6)));
    assert_eq!(validate(&three_units()), Ok(()));
    assert_eq!(validate(&Vec::new()), Ok(()));
}

#[test]
fn sequential_run_hands_out_units_in_input_order() {
    let mut executor = Executor::new(three_units(), ExecutionMode::Sequential).unwrap();
    assert_eq!(executor.next_action(), Action::RunOne { index: 0, delay: 100 });
    assert_eq!(executor.record(1, 0, 100), Err(RecordError::OutOfTurn));
    assert_eq!(executor.record(0, 0, 100), Ok(()));
    assert_eq!(executor.completed(), 1);
    assert_eq!(executor.next_action(), Action::RunOne { index: 1, delay: 100 });
    assert_eq!(executor.record(0, 0, 100), Err(RecordError::AlreadyRecorded));
    assert_eq!(executor.record(3, 0, 100), Err(RecordError::UnknownUnit));
    assert_eq!(executor.record(1, 100, 200), Ok(()));
    assert_eq!(executor.record(2, 200, 300), Ok(()));
    assert_eq!(executor.next_action(), Action::Finish);
    assert_eq!(executor.mode(), ExecutionMode::Sequential);
}

#[test]
fn concurrent_run_launches_everything_pending() {
    let mut executor = Executor::new(three_units(), ExecutionMode::Concurrent).unwrap();
    assert_eq!(executor.next_action(), Action::RunPending);
    assert_eq!(executor.record(2, 0, 100), Ok(()));
    assert!(executor.is_pending(0));
    assert!(!executor.is_pending(2));
    assert!(!executor.is_pending(3));
    assert_eq!(executor.next_action(), Action::RunPending);
    assert_eq!(executor.record(2, 0, 100), Err(RecordError::AlreadyRecorded));
    assert_eq!(executor.record(9, 0, 100), Err(RecordError::UnknownUnit));
    assert_eq!(executor.completed(), 1);
}

#[test]
fn no_report_while_a_unit_is_pending() {
    let mut executor = Executor::new(three_units(), ExecutionMode::Concurrent).unwrap();
    executor.record(0, 0, 100).unwrap();
    executor.record(1, 0, 100).unwrap();
    assert_eq!(executor.finish(100), None);
}

#[test]
fn finished_report_keeps_the_measured_time_and_the_intervals() {
    let mut executor = Executor::new(three_units(), ExecutionMode::Concurrent).unwrap();
    executor.record(1, 2, 103).unwrap();
    executor.record(2, 3, 104).unwrap();
    executor.record(0, 1, 102).unwrap();
    let report = executor.finish(105).unwrap();
    assert_eq!(report.total_elapsed, 105);
    let intervals: Vec<(u64, u64)> =
        report.outcomes.iter().map(|o| (o.started_at, o.finished_at)).collect();
    assert_eq!(intervals, vec![(1, 102), (2, 103), (3, 104)]);
}
