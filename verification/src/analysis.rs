//! Descriptive statistics over fixed-point samples.
//!
//! Companion utilities for looking at score data: sample count, mean,
//! median (of the sequence as given, not sorted) and mode.

use vstd::prelude::*;
use vstd::arithmetic::div_mod::{lemma_div_by_multiple, lemma_div_is_ordered};
use crate::engine::div_trunc;

verus! {

/// An analysis error carrying its message.
#[derive(Debug, Clone)]
pub struct AnalysisError {
    message: String,
}

impl View for AnalysisError {
    type V = Seq<char>;

    closed spec fn view(&self) -> Seq<char> {
        self.message@
    }
}

impl AnalysisError {
    /// An error with the given message.
    pub fn new(message: &str) -> (e: AnalysisError)
        ensures
            e@ == message@,
    {
        AnalysisError { message: message.to_owned() }
    }

    /// The message this error carries.
    pub fn message(&self) -> (m: &str)
        ensures
            m@ == self@,
    {
        self.message.as_str()
    }
}

/// Sum of a sequence of samples.
pub open spec fn spec_sum(s: Seq<i64>) -> int
    decreases s.len(),
{
    if s.len() == 0 {
        0
    } else {
        spec_sum(s.drop_last()) + s.last()
    }
}

/// Truncated average of two samples.
pub open spec fn avg_trunc(a: i64, b: i64) -> i64 {
    div_trunc(a + b, 2) as i64
}

/// The middle of the sequence as given: the single middle element of an
/// odd-length sequence, the truncated average of the two middle elements
/// of an even-length one, nothing from an empty one.
pub open spec fn spec_median(s: Seq<i64>) -> Option<i64> {
    if s.len() == 0 {
        None
    } else if s.len() % 2 == 1 {
        Some(s[s.len() as int / 2])
    } else {
        Some(avg_trunc(s[s.len() as int / 2 - 1], s[s.len() as int / 2]))
    }
}

/// How often `v` occurs among the samples.
pub open spec fn count_of(s: Seq<i64>, v: i64) -> int
    decreases s.len(),
{
    if s.len() == 0 {
        0
    } else {
        count_of(s.drop_last(), v) + (if s.last() == v {
            1int
        } else {
            0int
        })
    }
}

/// A value that occurs at all occurs at some position.
proof fn lemma_count_pos(s: Seq<i64>, v: i64)
    requires
        count_of(s, v) > 0,
    ensures
        exists|j: int| 0 <= j < s.len() && s[j] == v,
    decreases s.len(),
{
    if s.last() == v {
        assert(s[s.len() - 1] == v);
    } else {
        lemma_count_pos(s.drop_last(), v);
        let j = choose|j: int| 0 <= j < s.drop_last().len() && s.drop_last()[j] == v;
        assert(s[j] == v);
    }
}

/// Truncated division of a bounded sum by a positive sample count.
fn div_sum(sum: i128, n: usize) -> (r: i64)
    requires
        n > 0,
        (n as int) * (i64::MIN as int) <= sum as int,
        sum as int <= (n as int) * (i64::MAX as int),
    ensures
        r as int == div_trunc(sum as int, n as int),
{
    if sum >= 0 {
        let q = (sum as u128) / (n as u128);
        proof {
            lemma_div_is_ordered(sum as int, (n as int) * (i64::MAX as int), n as int);
            lemma_div_by_multiple(i64::MAX as int, n as int);
            assert((n as int) * (i64::MAX as int) == (i64::MAX as int) * (n as int));
        }
        q as i64
    } else {
        let mag = (-sum) as u128;
        let q = mag / (n as u128);
        proof {
            assert(-(sum as int) <= (n as int) * (-(i64::MIN as int))) by (nonlinear_arith)
                requires
                    (n as int) * (i64::MIN as int) <= sum as int,
            ;
            lemma_div_is_ordered(mag as int, (n as int) * (-(i64::MIN as int)), n as int);
            lemma_div_by_multiple(-(i64::MIN as int), n as int);
            assert((n as int) * (-(i64::MIN as int)) == (-(i64::MIN as int)) * (n as int));
        }
        (-(q as i128)) as i64
    }
}

/// The middle element of the samples as given; nothing when empty.
pub fn median(values: Vec<i64>) -> (r: Option<i64>)
    ensures
        r == spec_median(values@),
{
    let n = values.len();
    if n == 0 {
        return None;
    }
    if n % 2 == 1 {
        Some(values[n / 2])
    } else {
        let a = values[n / 2 - 1];
        let b = values[n / 2];
        let s: i128 = (a as i128) + (b as i128);
        let r = if s >= 0 {
            ((s as u128) / 2) as i64
        } else {
            (-((((-s) as u128) / 2) as i128)) as i64
        };
        proof {
            assert(r == avg_trunc(a, b));
        }
        Some(r)
    }
}

/// Summary of one sample set.
#[derive(Debug, Clone)]
pub struct AnalysisResult {
    /// How many samples there were.
    pub total_count: usize,
    /// Truncated mean of all samples.
    pub mean: i64,
    /// Middle of the samples as given.
    pub median: i64,
    /// The sample value occurring most often; the earliest such value on
    /// a tie.
    pub mode: i64,
}

/// How often `v` occurs among the samples.
fn count_occurrences(values: &Vec<i64>, v: i64) -> (c: usize)
    ensures
        c as int == count_of(values@, v),
{
    let mut c: usize = 0;
    let mut i: usize = 0;
    while i < values.len()
        invariant
            i <= values.len(),
            c as int == count_of(values@.take(i as int), v),
            c <= i,
        decreases values.len() - i,
    {
        proof {
            assert(values@.take(i + 1).drop_last() =~= values@.take(i as int));
            assert(values@.take(i + 1).last() == values@[i as int]);
        }
        if values[i] == v {
            c = c + 1;
        }
        i = i + 1;
    }
    proof {
        assert(values@.take(values@.len() as int) =~= values@);
    }
    c
}

/// Count, mean, median and mode of the samples; an error on an empty
/// sample set.
pub fn analyze(values: &Vec<i64>) -> (r: Result<AnalysisResult, AnalysisError>)
    ensures
        r is Ok <==> values@.len() > 0,
        r is Ok ==> (r->Ok_0).total_count == values@.len(),
        r is Ok ==> (r->Ok_0).mean as int == div_trunc(spec_sum(values@), values@.len() as int),
        r is Ok ==> Some((r->Ok_0).median) == spec_median(values@),
        r is Ok ==> count_of(values@, (r->Ok_0).mode) >= 1,
        r is Ok ==> forall|v: i64|
            #[trigger] count_of(values@, v) <= count_of(values@, (r->Ok_0).mode),
        r is Ok ==> exists|j: int|
            0 <= j < values@.len() && values@[j] == (r->Ok_0).mode && (forall|k: int|
                0 <= k < j ==> count_of(values@, #[trigger] values@[k]) < count_of(
                    values@,
                    (r->Ok_0).mode,
                )),
{
    let n = values.len();
    if n == 0 {
        return Err(AnalysisError::new("no samples to analyze"));
    }
    // sum for the mean
    let mut sum: i128 = 0;
    let mut i: usize = 0;
    while i < n
        invariant
            i <= n,
            n == values@.len(),
            sum as int == spec_sum(values@.take(i as int)),
            (i as int) * (i64::MIN as int) <= sum as int <= (i as int) * (i64::MAX as int),
        decreases n - i,
    {
        proof {
            assert(values@.take(i + 1).drop_last() =~= values@.take(i as int));
            assert(values@.take(i + 1).last() == values@[i as int]);
            let c = i as int;
            assert(c * (i64::MIN as int) + (i64::MIN as int) == (c + 1) * (i64::MIN as int))
                by (nonlinear_arith);
            assert(c * (i64::MAX as int) + (i64::MAX as int) == (c + 1) * (i64::MAX as int))
                by (nonlinear_arith);
            assert((c + 1) * (i64::MIN as int) >= (i128::MIN as int) + i64::MIN)
                by (nonlinear_arith)
                requires
                    0 <= c <= usize::MAX as int,
            ;
            assert((c + 1) * (i64::MAX as int) <= i128::MAX as int) by (nonlinear_arith)
                requires
                    0 <= c <= usize::MAX as int,
            ;
        }
        sum = sum + (values[i] as i128);
        i = i + 1;
    }
    proof {
        assert(values@.take(values@.len() as int) =~= values@);
    }
    let mean = div_sum(sum, n);
    // median of the sequence as given
    let mid = match median(copy_values(values)) {
        Some(m) => m,
        None => {
            proof {
                assert(false);
            }
            0
        },
    };
    // mode: most frequent value, earliest on ties
    let mut mode: i64 = 0;
    let mut mode_count: usize = 0;
    let mut t: usize = 0;
    while t < n
        invariant
            t <= n,
            n == values@.len(),
            n > 0,
            t == 0 ==> mode_count == 0,
            t > 0 ==> mode_count >= 1,
            t > 0 ==> mode_count as int == count_of(values@, mode),
            t > 0 ==> exists|j: int|
                0 <= j < t && values@[j] == mode && (forall|k: int|
                    0 <= k < j ==> count_of(values@, #[trigger] values@[k]) < mode_count as int),
            forall|k: int| 0 <= k < t ==> count_of(values@, #[trigger] values@[k]) <= mode_count as int,
        decreases n - t,
    {
        let c = count_occurrences(values, values[t]);
        proof {
            lemma_count_take_pos(values@, t as int);
        }
        if c > mode_count {
            mode = values[t];
            mode_count = c;
            proof {
                assert(values@[t as int] == mode);
                assert(0 <= (t as int) && (t as int) < t + 1 && values@[t as int] == mode && (forall|k: int|
                    0 <= k < t as int ==> count_of(values@, #[trigger] values@[k])
                        < mode_count as int));
            }
        } else {
            proof {
                if t == 0 {
                    assert(count_of(values@, values@[0]) >= 1);
                    assert(false);
                } else {
                    let j = choose|j: int|
                        0 <= j < t && values@[j] == mode && (forall|k: int|
                            0 <= k < j ==> count_of(values@, #[trigger] values@[k])
                                < mode_count as int);
                    assert(0 <= j < t + 1 && values@[j] == mode && (forall|k: int|
                        0 <= k < j ==> count_of(values@, #[trigger] values@[k])
                            < mode_count as int));
                }
            }
        }
        t = t + 1;
    }
    proof {
        assert(mode_count >= 1);
        assert forall|v: i64| count_of(values@, v) <= count_of(values@, mode) by {
            if count_of(values@, v) > 0 {
                lemma_count_pos(values@, v);
                let j = choose|j: int| 0 <= j < values@.len() && values@[j] == v;
                assert(count_of(values@, values@[j]) <= mode_count as int);
            }
        }
    }
    Ok(AnalysisResult { total_count: n, mean, median: mid, mode })
}

/// An occurring element is counted at least once.
proof fn lemma_count_take_pos(s: Seq<i64>, t: int)
    requires
        0 <= t < s.len(),
    ensures
        count_of(s, s[t]) >= 1,
    decreases s.len(),
{
    if t == s.len() - 1 {
        assert(count_of(s, s[t]) == count_of(s.drop_last(), s[t]) + 1);
        lemma_count_nonneg(s.drop_last(), s[t]);
    } else {
        lemma_count_take_pos(s.drop_last(), t);
        assert(s.drop_last()[t] == s[t]);
    }
}

/// Counts are never negative.
proof fn lemma_count_nonneg(s: Seq<i64>, v: i64)
    ensures
        count_of(s, v) >= 0,
    decreases s.len(),
{
    if s.len() > 0 {
        lemma_count_nonneg(s.drop_last(), v);
    }
}

/// A fresh copy of the samples.
fn copy_values(values: &Vec<i64>) -> (out: Vec<i64>)
    ensures
        out@ == values@,
{
    let mut out: Vec<i64> = Vec::new();
    let mut i: usize = 0;
    while i < values.len()
        invariant
            i <= values.len(),
            out@ == values@.take(i as int),
        decreases values.len() - i,
    {
        out.push(values[i]);
        proof {
            assert(values@.take(i + 1) =~= values@.take(i as int).push(values@[i as int]));
        }
        i = i + 1;
    }
    proof {
        assert(values@.take(values@.len() as int) =~= values@);
    }
    out
}

} // verus!
