use evoengine::kpi::{check_thresholds, KpiData, KpiError, KpiThreshold};

fn reading(name: &str, current: i64) -> KpiData {
    KpiData {
        metric_name: name.to_string(),
        current_value: current,
        target_value: 0,
        status: "OK".to_string(),
        timestamp: 0,
    }
}

fn bound(name: &str, value: i64) -> KpiThreshold {
    KpiThreshold { metric_name: name.to_string(), threshold_value: value }
}

#[test]
fn thresholds_within_limits_pass() {
    let data = vec![reading("cpu", 75), reading("memory", 50)];
    let thresholds = vec![bound("cpu", 80), bound("memory", 60)];
    assert!(check_thresholds(&data, &thresholds).is_ok());
}

#[test]
fn missing_metric_fails() {
    let data = vec![reading("cpu", 75)];
    let thresholds = vec![bound("disk", 90)];
    assert_eq!(check_thresholds(&data, &thresholds).unwrap_err(), KpiError::MetricNotFound);
}

#[test]
fn exceeded_threshold_fails() {
    let data = vec![reading("cpu", 95)];
    let thresholds = vec![bound("cpu", 80)];
    assert_eq!(check_thresholds(&data, &thresholds).unwrap_err(), KpiError::MetricNotFound);
}

#[test]
fn first_reading_of_a_metric_decides() {
    let data = vec![reading("cpu", 10), reading("cpu", 99)];
    let thresholds = vec![bound("cpu", 80)];
    assert!(check_thresholds(&data, &thresholds).is_ok());
}

#[test]
fn no_thresholds_means_ok() {
    let data = vec![reading("cpu", 75)];
    assert!(check_thresholds(&data, &Vec::new()).is_ok());
}
