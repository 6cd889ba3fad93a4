use bench_runner::measure::{Measurement, RunKind};
use bench_runner::report::{aggregate, LanguageSamples};

/// Drives a session, answering every run with `outcome`.
fn run_session(warmup: u32, measured: u32, outcome: Option<u64>) -> (u32, Vec<u64>) {
    let mut m = Measurement::new(warmup, measured);
    let mut warmups = 0;
    while let Some(kind) = m.next_run() {
        if kind == RunKind::Warmup {
            warmups += 1;
        }
        m.record(outcome);
    }
    (warmups, m.into_samples())
}

#[test]
fn three_successful_runs_give_three_samples() {
    let (warmups, samples) = run_session(0, 3, Some(1_000_000));
    assert_eq!(warmups, 0);
    assert_eq!(samples.len(), 3);
    assert_eq!(samples, vec![1_000_000, 1_000_000, 1_000_000]);
}

#[test]
fn missing_executable_gives_no_sample_and_no_result() {
    let (_, samples) = run_session(2, 5, None);
    assert!(samples.is_empty());
    let report = aggregate(
        "fibonacci".to_string(),
        &vec![LanguageSamples { language: "c".to_string(), samples }],
        "c",
    );
    assert!(report.results.is_empty());
    assert!(report.baseline.is_none());
    assert!(report.relatives.is_empty());
}

#[test]
fn warmup_runs_are_discarded() {
    let mut m = Measurement::new(2, 2);
    assert_eq!(m.next_run(), Some(RunKind::Warmup));
    m.record(Some(999));
    assert_eq!(m.next_run(), Some(RunKind::Warmup));
    m.record(None);
    assert_eq!(m.next_run(), Some(RunKind::Measured));
    m.record(Some(10));
    assert_eq!(m.next_run(), Some(RunKind::Measured));
    m.record(Some(20));
    assert_eq!(m.next_run(), None);
    assert_eq!(m.into_samples(), vec![10, 20]);
}

#[test]
fn failed_spawns_are_skipped_and_order_kept() {
    let mut m = Measurement::new(0, 4);
    m.record(Some(30));
    m.record(None);
    m.record(Some(10));
    m.record(None);
    assert_eq!(m.next_run(), None);
    assert_eq!(m.into_samples(), vec![30, 10]);
}

#[test]
fn zero_measured_runs_give_no_sample() {
    let (warmups, samples) = run_session(3, 0, Some(5));
    assert_eq!(warmups, 3);
    assert!(samples.is_empty());
}
