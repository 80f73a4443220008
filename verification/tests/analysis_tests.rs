use evoengine::analysis::{analyze, median, AnalysisError};

#[test]
fn median_of_empty_is_none() {
    assert_eq!(median(Vec::new()), None);
}

#[test]
fn median_odd_takes_middle() {
    assert_eq!(median(vec![5, 1, 9]), Some(1));
    assert_eq!(median(vec![7]), Some(7));
}

#[test]
fn median_even_averages_middle_pair() {
    assert_eq!(median(vec![2, 4, 6, 8]), Some(5));
    assert_eq!(median(vec![3, 4]), Some(3));
    // truncation is toward zero
    assert_eq!(median(vec![-3, -4]), Some(-3));
}

#[test]
fn analyze_empty_is_an_error() {
    let values: Vec<i64> = Vec::new();
    assert!(analyze(&values).is_err());
}

#[test]
fn analyze_computes_exact_summary() {
    let values = vec![3, 1, 3, 2, 1, 3];
    let r = analyze(&values).expect("nonempty input");
    assert_eq!(r.total_count, 6);
    assert_eq!(r.mean, 2);  // 13 / 6 truncated
    assert_eq!(r.median, 2);  // middle pair (3, 2) averaged
    assert_eq!(r.mode, 3);
}

#[test]
fn analyze_mode_prefers_earliest_on_ties() {
    let values = vec![4, 9, 4, 9];
    let r = analyze(&values).expect("nonempty input");
    assert_eq!(r.mode, 4);
}

#[test]
fn analyze_negative_mean_truncates_toward_zero() {
    let values = vec![-1, -2];
    let r = analyze(&values).expect("nonempty input");
    assert_eq!(r.mean, -1);  // -3 / 2 truncated toward zero
}

#[test]
fn analysis_error_keeps_its_message() {
    let e = AnalysisError::new("bad sample");
    assert_eq!(e.message(), "bad sample");
}
