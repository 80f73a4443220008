//! Indicator thresholds.
//!
//! Indicator readings carry fixed-point values; a set of thresholds is
//! checked against the readings, each threshold against the first
//! reading of its metric.

use vstd::prelude::*;

verus! {

/// One indicator reading.
#[derive(Debug)]
pub struct KpiData {
    /// Which metric this reading belongs to.
    pub metric_name: String,
    /// The value read, fixed-point.
    pub current_value: i64,
    /// The value aimed for, fixed-point.
    pub target_value: i64,
    /// Free-form state tag.
    pub status: String,
    /// When the reading was taken, seconds.
    pub timestamp: u64,
}

/// An upper bound for one metric.
#[derive(Debug)]
pub struct KpiThreshold {
    /// Which metric the bound applies to.
    pub metric_name: String,
    /// The bound, fixed-point.
    pub threshold_value: i64,
}

/// Why a threshold check failed.
#[derive(Clone, Copy, Debug, PartialEq, Eq, Structural)]
pub enum KpiError {
    /// A metric name violates the naming rules.
    InvalidMetricName,
    /// A threshold's metric has no reading, or its reading exceeds it.
    MetricNotFound,
    /// A threshold value violates the value rules.
    InvalidThresholdValue,
}

/// Whether some reading belongs to the metric called `name`.
pub open spec fn name_found(data: Seq<KpiData>, name: Seq<char>) -> bool {
    exists|i: int| 0 <= i < data.len() && (#[trigger] data[i]).metric_name@ == name
}

/// Position of the first reading of the metric called `name`.
pub open spec fn first_match(data: Seq<KpiData>, name: Seq<char>) -> int
    decreases data.len(),
{
    if data.len() == 0 {
        0
    } else if data[0].metric_name@ == name {
        0
    } else {
        1 + first_match(data.skip(1), name)
    }
}

/// Whether the first reading of the threshold's metric exists and stays
/// within the threshold.
pub open spec fn threshold_ok(data: Seq<KpiData>, t: KpiThreshold) -> bool {
    &&& name_found(data, t.metric_name@)
    &&& data[first_match(data, t.metric_name@)].current_value <= t.threshold_value
}

/// A scan that stops at the first reading of the metric computes
/// exactly `first_match`.
proof fn lemma_first_match_from_scan(data: Seq<KpiData>, name: Seq<char>, p: int)
    requires
        0 <= p <= data.len(),
        forall|k: int| 0 <= k < p ==> (#[trigger] data[k]).metric_name@ != name,
        p < data.len() ==> data[p].metric_name@ == name,
    ensures
        first_match(data, name) == p,
        p == data.len() ==> !name_found(data, name),
    decreases data.len(),
{
    if data.len() == 0 {
    } else if data[0].metric_name@ == name {
        if p > 0 {
            assert(data[0].metric_name@ != name);
        }
    } else {
        assert(p > 0) by {
            if p == 0 {
                assert(data[0].metric_name@ == name);
            }
        }
        let tail = data.skip(1);
        assert(forall|k: int| 0 <= k < tail.len() ==> tail[k] == data[k + 1]);
        assert forall|k: int| 0 <= k < p - 1 implies (#[trigger] tail[k]).metric_name@ != name by {
            assert(data[k + 1].metric_name@ != name);
        }
        lemma_first_match_from_scan(tail, name, p - 1);
        if p == data.len() {
            assert forall|i: int|
                0 <= i < data.len() implies (#[trigger] data[i]).metric_name@ != name by {
                if i > 0 {
                    assert(tail[i - 1] == data[i]);
                    assert(!name_found(tail, name));
                }
            }
        }
    }
}

/// Check each threshold against the first reading of its metric:
/// `Ok` exactly when every threshold's metric has a reading and that
/// reading stays within the threshold; else the first violation is
/// reported as a missing metric.
pub fn check_thresholds(data: &Vec<KpiData>, thresholds: &Vec<KpiThreshold>) -> (r: Result<
    (),
    KpiError,
>)
    ensures
        r is Ok <==> (forall|i: int|
            0 <= i < thresholds@.len() ==> threshold_ok(data@, #[trigger] thresholds@[i])),
        r is Err ==> r->Err_0 == KpiError::MetricNotFound,
{
    let mut i: usize = 0;
    while i < thresholds.len()
        invariant
            i <= thresholds.len(),
            forall|k: int| 0 <= k < i ==> threshold_ok(data@, #[trigger] thresholds@[k]),
        decreases thresholds.len() - i,
    {
        let name = &thresholds[i].metric_name;
        let mut j: usize = 0;
        let mut hit = false;
        while !hit && j < data.len()
            invariant
                j <= data.len(),
                forall|k: int| 0 <= k < j ==> (#[trigger] data@[k]).metric_name@ != name@,
                hit ==> j < data.len() && data@[j as int].metric_name@ == name@,
                name == thresholds@[i as int].metric_name,
                i < thresholds.len(),
            decreases data.len() - j + (if hit { 0int } else { 1int }),
        {
            if data[j].metric_name == *name {
                hit = true;
            } else {
                j = j + 1;
            }
        }
        proof {
            lemma_first_match_from_scan(data@, name@, j as int);
        }
        if !hit {
            return Err(KpiError::MetricNotFound);
        }
        if data[j].current_value > thresholds[i].threshold_value {
            return Err(KpiError::MetricNotFound);
        }
        i = i + 1;
    }
    Ok(())
}

} // verus!
