use bench_runner::report::{aggregate, LanguageResult, LanguageSamples, Relative};
use bench_runner::stats::Summary;

const MS: u64 = 1_000_000;

fn lang(language: &str, samples: Vec<u64>) -> LanguageSamples {
    LanguageSamples { language: language.to_string(), samples }
}

#[test]
fn no_languages_give_empty_report_without_baseline() {
    let report = aggregate("empty".to_string(), &vec![], "c");
    assert_eq!(report.benchmark, "empty");
    assert!(report.results.is_empty());
    assert!(report.baseline.is_none());
    assert!(report.relatives.is_empty());
}

#[test]
fn ratio_against_preferred_baseline() {
    let report = aggregate(
        "fib".to_string(),
        &vec![
            lang("bmb", vec![25 * MS]),
            lang("c", vec![10 * MS]),
            lang("rust", vec![10 * MS]),
        ],
        "c",
    );
    assert_eq!(report.baseline.as_deref(), Some("c"));
    assert_eq!(report.relatives.len(), 3);
    assert_eq!(report.relatives[0], Relative { median: 25 * MS, baseline: 10 * MS });
    assert_eq!(report.relatives[0].thousandths(), Some(2500));
    assert!(!report.relatives[0].at_or_above_baseline());
    assert_eq!(report.relatives[1].thousandths(), Some(1000));
    assert_eq!(report.relatives[2].thousandths(), Some(1000));
    assert!(report.relatives[2].at_or_above_baseline());
}

#[test]
fn baseline_falls_back_to_least_language_tag() {
    let report = aggregate(
        "fib".to_string(),
        &vec![lang("rust", vec![8]), lang("bmb", vec![4]), lang("go", vec![2])],
        "c",
    );
    assert_eq!(report.baseline.as_deref(), Some("bmb"));
    assert_eq!(report.relatives[0].thousandths(), Some(2000));
    assert_eq!(report.relatives[2].thousandths(), Some(500));
}

#[test]
fn languages_without_samples_are_left_out() {
    let report = aggregate(
        "sort".to_string(),
        &vec![lang("c", vec![]), lang("bmb", vec![3, 1, 2])],
        "c",
    );
    assert_eq!(report.results.len(), 1);
    assert_eq!(report.results[0].language, "bmb");
    assert_eq!(report.results[0].summary, Summary { median: 2, min: 1, max: 3 });
    assert_eq!(report.baseline.as_deref(), Some("bmb"));
    assert_eq!(report.relatives[0].thousandths(), Some(1000));
}

#[test]
fn result_needs_samples() {
    assert!(LanguageResult::from_samples("c".to_string(), vec![]).is_none());
    let r = LanguageResult::from_samples("c".to_string(), vec![4, 8]).unwrap();
    assert_eq!(r.summary, Summary { median: 6, min: 4, max: 8 });
}

#[test]
fn zero_baseline_has_no_ratio() {
    let r = Relative { median: 5, baseline: 0 };
    assert_eq!(r.thousandths(), None);
    assert!(!r.at_or_above_baseline());
    assert_eq!(Relative { median: 1, baseline: 3 }.thousandths(), Some(333));
}
