//! The enrichment pipeline: locating the temperature and humidity metrics,
//! threshold-rule anomaly detection, and quality scoring.

use vstd::prelude::*;

use crate::models::{
    Issue, IssueKind, MetricValue, MetricView, SensorDataInput, SensorMetric, DataQuality,
    metrics_view, MAX_METRICS,
};
use crate::text::{is_blank, name_matches, str_is_blank, str_matches_lower};
use crate::math::{
    div_floor_i128, div_floor_i64, lemma_div_bounded, ln_ratio_micro, spec_ln_ratio_micro,
};
use crate::models::{metrics_in_range, MAX_ABS_MILLI};
use vstd::arithmetic::div_mod::{
    lemma_div_is_ordered, lemma_fundamental_div_mod, lemma_mod_division_less_than_divisor,
};
use vstd::math::abs;

verus! {

/// The metric is the temperature reading, matched by name ignoring case.
pub open spec fn is_temperature_metric(m: MetricView) -> bool {
    name_matches(m.measurement, "temperature"@)
}

/// The metric is the humidity reading, under either of its two names.
pub open spec fn is_humidity_metric(m: MetricView) -> bool {
    name_matches(m.measurement, "humidity"@) || name_matches(m.measurement, "humedad"@)
}

/// First metric of the list satisfying `pred`, scanning left to right.
pub open spec fn first_matching(
    metrics: Seq<MetricView>,
    pred: spec_fn(MetricView) -> bool,
) -> Option<MetricView>
    decreases metrics.len(),
{
    if metrics.len() == 0 {
        None
    } else if pred(metrics[0]) {
        Some(metrics[0])
    } else {
        first_matching(metrics.drop_first(), pred)
    }
}

/// The temperature metric of a reading, if any.
pub open spec fn first_temperature(metrics: Seq<MetricView>) -> Option<MetricView> {
    first_matching(metrics, |m: MetricView| is_temperature_metric(m))
}

/// The humidity metric of a reading, if any.
pub open spec fn first_humidity(metrics: Seq<MetricView>) -> Option<MetricView> {
    first_matching(metrics, |m: MetricView| is_humidity_metric(m))
}

/// Skipping a prefix without a match does not change the first match.
proof fn lemma_first_matching_skip(
    metrics: Seq<MetricView>,
    pred: spec_fn(MetricView) -> bool,
    i: int,
)
    requires
        0 <= i <= metrics.len(),
        forall|j: int| 0 <= j < i ==> !pred(#[trigger] metrics[j]),
    ensures
        first_matching(metrics, pred) == first_matching(metrics.skip(i), pred),
    decreases i,
{
    if i > 0 {
        assert(metrics.drop_first() =~= metrics.skip(1));
        lemma_first_matching_skip(metrics.drop_first(), pred, i - 1);
        assert(metrics.drop_first().skip(i - 1) =~= metrics.skip(i));
    } else {
        assert(metrics.skip(0) =~= metrics);
    }
}

/// Finds the position of the temperature metric, if one is present.
pub fn find_temperature(metrics: &Vec<SensorMetric>) -> (r: Option<usize>)
    ensures
        match r {
            Some(i) => i < metrics@.len() && first_temperature(metrics_view(metrics@))
                == Some(metrics@[i as int]@),
            None => first_temperature(metrics_view(metrics@)) is None,
        },
{
    let ghost mv = metrics_view(metrics@);
    let ghost pred = |m: MetricView| is_temperature_metric(m);
    let mut i: usize = 0;
    while i < metrics.len()
        invariant
            i <= metrics@.len(),
            mv == metrics_view(metrics@),
            pred == (|m: MetricView| is_temperature_metric(m)),
            forall|j: int| 0 <= j < i ==> !pred(#[trigger] mv[j]),
        decreases metrics@.len() - i,
    {
        if str_matches_lower(metrics[i].measurement.as_str(), "temperature") {
            proof {
                lemma_first_matching_skip(mv, pred, i as int);
                assert(mv.skip(i as int)[0] == mv[i as int]);
            }
            return Some(i);
        }
        i = i + 1;
    }
    proof {
        lemma_first_matching_skip(mv, pred, i as int);
        assert(mv.skip(i as int) =~= Seq::<MetricView>::empty());
    }
    None
}

/// Finds the position of the humidity metric, if one is present.
pub fn find_humidity(metrics: &Vec<SensorMetric>) -> (r: Option<usize>)
    ensures
        match r {
            Some(i) => i < metrics@.len() && first_humidity(metrics_view(metrics@))
                == Some(metrics@[i as int]@),
            None => first_humidity(metrics_view(metrics@)) is None,
        },
{
    let ghost mv = metrics_view(metrics@);
    let ghost pred = |m: MetricView| is_humidity_metric(m);
    let mut i: usize = 0;
    while i < metrics.len()
        invariant
            i <= metrics@.len(),
            mv == metrics_view(metrics@),
            pred == (|m: MetricView| is_humidity_metric(m)),
            forall|j: int| 0 <= j < i ==> !pred(#[trigger] mv[j]),
        decreases metrics@.len() - i,
    {
        let is_hum = str_matches_lower(metrics[i].measurement.as_str(), "humidity")
            || str_matches_lower(metrics[i].measurement.as_str(), "humedad");
        if is_hum {
            proof {
                lemma_first_matching_skip(mv, pred, i as int);
                assert(mv.skip(i as int)[0] == mv[i as int]);
            }
            return Some(i);
        }
        i = i + 1;
    }
    proof {
        lemma_first_matching_skip(mv, pred, i as int);
        assert(mv.skip(i as int) =~= Seq::<MetricView>::empty());
    }
    None
}

/// A single metric trips a threshold rule on its own: a non-finite value,
/// or a value outside the plausible range for its kind of measurement.
pub open spec fn metric_extreme(m: MetricView) -> bool {
    if m.value.spec_is_nan() || m.value.spec_is_infinite() {
        true
    } else {
        let v = m.value.spec_milli();
        if name_matches(m.measurement, "distance"@) || name_matches(m.measurement, "distancia"@) {
            v < 0 || v > 10_000_000
        } else if name_matches(m.measurement, "voltage"@) || name_matches(
            m.measurement,
            "voltaje"@,
        ) {
            v < 0 || v > 50_000
        } else {
            v > 10_000_000 || v < -10_000_000
        }
    }
}

/// The temperature reading, when present and finite, is outside [-10, 50]
/// degrees.
pub open spec fn temperature_range_anomaly(t: Option<MetricView>) -> bool {
    match t {
        Some(m) => m.value is Finite && (m.value.spec_milli() < -10_000 || m.value.spec_milli()
            > 50_000),
        None => false,
    }
}

/// The humidity reading, when present and finite, is outside [10, 95]
/// percent.
pub open spec fn humidity_range_anomaly(h: Option<MetricView>) -> bool {
    match h {
        Some(m) => m.value is Finite && (m.value.spec_milli() < 10_000 || m.value.spec_milli()
            > 95_000),
        None => false,
    }
}

/// A reading is anomalous when the temperature or humidity is out of its
/// plausible range, or any metric trips a threshold rule of its own.
pub open spec fn spec_is_anomaly(metrics: Seq<MetricView>) -> bool {
    ||| temperature_range_anomaly(first_temperature(metrics))
    ||| humidity_range_anomaly(first_humidity(metrics))
    ||| exists|i: int| 0 <= i < metrics.len() && metric_extreme(#[trigger] metrics[i])
}

/// Decides `spec_is_anomaly` for a reading's metrics.
pub fn detect_anomaly(metrics: &Vec<SensorMetric>) -> (r: bool)
    ensures
        r == spec_is_anomaly(metrics_view(metrics@)),
{
    let ghost mv = metrics_view(metrics@);
    if let Some(ti) = find_temperature(metrics) {
        if let MetricValue::Finite(v) = metrics[ti].value {
            if v < -10_000 || v > 50_000 {
                return true;
            }
        }
    }
    if let Some(hi) = find_humidity(metrics) {
        if let MetricValue::Finite(v) = metrics[hi].value {
            if v < 10_000 || v > 95_000 {
                return true;
            }
        }
    }
    let mut i: usize = 0;
    while i < metrics.len()
        invariant
            i <= metrics@.len(),
            mv == metrics_view(metrics@),
            !temperature_range_anomaly(first_temperature(mv)),
            !humidity_range_anomaly(first_humidity(mv)),
            forall|j: int| 0 <= j < i ==> !metric_extreme(#[trigger] mv[j]),
        decreases metrics@.len() - i,
    {
        let m = &metrics[i];
        let extreme = if m.value.is_nan() || m.value.is_infinite() {
            true
        } else {
            let v = match m.value {
                MetricValue::Finite(v) => v,
                _ => 0,
            };
            if str_matches_lower(m.measurement.as_str(), "distance") || str_matches_lower(
                m.measurement.as_str(),
                "distancia",
            ) {
                v < 0 || v > 10_000_000
            } else if str_matches_lower(m.measurement.as_str(), "voltage") || str_matches_lower(
                m.measurement.as_str(),
                "voltaje",
            ) {
                v < 0 || v > 50_000
            } else {
                v > 10_000_000 || v < -10_000_000
            }
        };
        if extreme {
            proof {
                assert(mv[i as int] == metrics@[i as int]@);
                assert(metric_extreme(mv[i as int]));
            }
            return true;
        }
        i = i + 1;
    }
    false
}

/// How many metric values are not a number, counted from the right.
pub open spec fn spec_nan_count(metrics: Seq<MetricView>) -> int
    decreases metrics.len(),
{
    if metrics.len() == 0 {
        0
    } else {
        spec_nan_count(metrics.drop_last()) + if metrics.last().value.spec_is_nan() {
            1int
        } else {
            0int
        }
    }
}

/// How many metric values are infinite, counted from the right.
pub open spec fn spec_inf_count(metrics: Seq<MetricView>) -> int
    decreases metrics.len(),
{
    if metrics.len() == 0 {
        0
    } else {
        spec_inf_count(metrics.drop_last()) + if metrics.last().value.spec_is_infinite() {
            1int
        } else {
            0int
        }
    }
}

/// Counts are nonnegative and bounded by the length of the list.
pub proof fn lemma_counts_bounded(metrics: Seq<MetricView>)
    ensures
        0 <= spec_nan_count(metrics) <= metrics.len(),
        0 <= spec_inf_count(metrics) <= metrics.len(),
    decreases metrics.len(),
{
    if metrics.len() > 0 {
        lemma_counts_bounded(metrics.drop_last());
    }
}

/// Total quality deduction of a reading: 50 when it has no metrics, 25
/// when flagged anomalous, 30 for each non-numeric and each infinite
/// value, and 10 for a blank location.
pub open spec fn spec_deductions(metrics: Seq<MetricView>, anomaly: bool, location: Seq<char>) -> int {
    (if metrics.len() == 0 { 50int } else { 0int })
    + (if anomaly { 25int } else { 0int })
    + 30 * spec_nan_count(metrics)
    + 30 * spec_inf_count(metrics)
    + (if is_blank(location) { 10int } else { 0int })
}

/// Quality score after a total deduction: 100 minus the deduction,
/// saturating at 0.
pub open spec fn spec_quality_score(d: int) -> u8 {
    if d >= 100 {
        0u8
    } else if d <= 0 {
        100u8
    } else {
        (100 - d) as u8
    }
}

/// The quality score never drops below 0 and never exceeds 100.
pub proof fn lemma_quality_score_range(d: int)
    ensures
        0 <= spec_quality_score(d) <= 100,
{
}

/// The quality score is monotonically non-increasing in the total
/// deduction: meeting more issue conditions can only lower it.
pub proof fn lemma_quality_score_monotone(d1: int, d2: int)
    requires
        d1 <= d2,
    ensures
        spec_quality_score(d2) <= spec_quality_score(d1),
{
}

/// A reading whose issue conditions are contained in those of another
/// reading deducts no more than the other.
pub proof fn lemma_deductions_monotone(
    m1: Seq<MetricView>,
    a1: bool,
    l1: Seq<char>,
    m2: Seq<MetricView>,
    a2: bool,
    l2: Seq<char>,
)
    requires
        m1.len() == 0 ==> m2.len() == 0,
        a1 ==> a2,
        spec_nan_count(m1) <= spec_nan_count(m2),
        spec_inf_count(m1) <= spec_inf_count(m2),
        is_blank(l1) ==> is_blank(l2),
    ensures
        spec_deductions(m1, a1, l1) <= spec_deductions(m2, a2, l2),
        spec_quality_score(spec_deductions(m2, a2, l2)) <= spec_quality_score(
            spec_deductions(m1, a1, l1),
        ),
{
    lemma_quality_score_monotone(spec_deductions(m1, a1, l1), spec_deductions(m2, a2, l2));
}

/// The per-metric quality issues of a reading, in metric order.
pub open spec fn spec_metric_issues(metrics: Seq<SensorMetric>) -> Seq<Issue>
    decreases metrics.len(),
{
    if metrics.len() == 0 {
        Seq::empty()
    } else {
        let m = metrics.last();
        spec_metric_issues(metrics.drop_last()) + (if m.value.spec_is_nan() {
            seq![Issue { kind: IssueKind::NanValue, measurement: Some(m.measurement) }]
        } else if m.value.spec_is_infinite() {
            seq![Issue { kind: IssueKind::InfiniteValue, measurement: Some(m.measurement) }]
        } else {
            Seq::empty()
        })
    }
}

/// All quality issues of a reading, in the order they are checked.
pub open spec fn spec_issues(metrics: Seq<SensorMetric>, anomaly: bool, blank_location: bool) -> Seq<
    Issue,
> {
    (if metrics.len() == 0 {
        seq![Issue { kind: IssueKind::NoMetrics, measurement: None }]
    } else {
        Seq::empty()
    }) + (if anomaly {
        seq![Issue { kind: IssueKind::AnomalousReading, measurement: None }]
    } else {
        Seq::empty()
    }) + spec_metric_issues(metrics) + (if blank_location {
        seq![Issue { kind: IssueKind::BlankLocation, measurement: None }]
    } else {
        Seq::empty()
    })
}

/// Scores the quality of a reading given its anomaly flag, recording one
/// issue for each deduction taken.
pub fn assess_quality(input: &SensorDataInput, anomaly: bool) -> (r: DataQuality)
    requires
        input.metrics@.len() <= MAX_METRICS,
    ensures
        r.score == spec_quality_score(
            spec_deductions(metrics_view(input.metrics@), anomaly, input.header.location@),
        ),
        r.issues@ == spec_issues(input.metrics@, anomaly, is_blank(input.header.location@)),
        r.corrected == false,
{
    let ghost mv = metrics_view(input.metrics@);
    let mut ded: u64 = 0;
    let mut issues: Vec<Issue> = Vec::new();
    if input.metrics.len() == 0 {
        ded = ded + 50;
        issues.push(Issue { kind: IssueKind::NoMetrics, measurement: None });
    }
    if anomaly {
        ded = ded + 25;
        issues.push(Issue { kind: IssueKind::AnomalousReading, measurement: None });
    }
    let ghost pre_issues = issues@;
    let ghost pre_ded = ded as int;
    let mut i: usize = 0;
    while i < input.metrics.len()
        invariant
            i <= input.metrics@.len(),
            input.metrics@.len() <= MAX_METRICS,
            mv == metrics_view(input.metrics@),
            issues@ == pre_issues + spec_metric_issues(input.metrics@.take(i as int)),
            ded == pre_ded + 30 * spec_nan_count(mv.take(i as int)) + 30 * spec_inf_count(
                mv.take(i as int),
            ),
            pre_ded <= 75,
            ded <= pre_ded + 60 * i,
        decreases input.metrics@.len() - i,
    {
        proof {
            lemma_counts_bounded(mv.take(i as int));
            assert(input.metrics@.take(i + 1 as int).drop_last() =~= input.metrics@.take(i as int));
            assert(mv.take(i + 1 as int).drop_last() =~= mv.take(i as int));
            assert(input.metrics@.take(i + 1 as int).last() == input.metrics@[i as int]);
            assert(mv.take(i + 1 as int).last() == mv[i as int]);
        }
        let m = &input.metrics[i];
        if m.value.is_nan() {
            ded = ded + 30;
            issues.push(
                Issue { kind: IssueKind::NanValue, measurement: Some(m.measurement.clone()) },
            );
        } else if m.value.is_infinite() {
            ded = ded + 30;
            issues.push(
                Issue { kind: IssueKind::InfiniteValue, measurement: Some(m.measurement.clone()) },
            );
        }
        i = i + 1;
    }
    proof {
        assert(input.metrics@.take(i as int) =~= input.metrics@);
        assert(mv.take(i as int) =~= mv);
        lemma_counts_bounded(mv);
    }
    if str_is_blank(input.header.location.as_str()) {
        ded = ded + 10;
        issues.push(Issue { kind: IssueKind::BlankLocation, measurement: None });
    }
    let score: u8 = if ded >= 100 {
        0
    } else {
        (100 - ded) as u8
    };
    DataQuality { score, issues, corrected: false }
}


/// Temperature converted to milli-degrees Fahrenheit.
pub open spec fn spec_temp_f_milli(t: int) -> int {
    t * 9 / 5 + 32_000
}

/// The Rothfusz regression in milli-degrees Fahrenheit and milli-percent,
/// with each coefficient held to eight decimal places.
pub open spec fn spec_heat_index_f_milli(tf: int, rh: int) -> int {
    -42_379 + 204_901_523 * tf / 100_000_000 + 1_014_333_127 * rh / 100_000_000 + (-22_475_541)
        * tf * rh / 100_000_000_000 + (-683_783) * tf * tf / 100_000_000_000 + (-5_481_717) * rh
        * rh / 100_000_000_000 + 122_874 * tf * tf * rh / 100_000_000_000_000 + 85_282 * tf * rh
        * rh / 100_000_000_000_000 + (-199) * tf * tf * rh * rh / 100_000_000_000_000_000
}

/// Heat index in milli-degrees Celsius: below 80 degrees Fahrenheit the
/// regression does not apply and the temperature is returned unchanged;
/// from there on the regression is evaluated in Fahrenheit and converted
/// back.
pub open spec fn spec_heat_index_milli(t: int, rh: int) -> int {
    if spec_temp_f_milli(t) < 80_000 {
        t
    } else {
        (spec_heat_index_f_milli(spec_temp_f_milli(t), rh) - 32_000) * 5 / 9
    }
}

/// Below the 80 degrees Fahrenheit threshold the heat index is exactly the
/// input temperature.
pub proof fn lemma_heat_index_below_threshold(t: int, rh: int)
    requires
        spec_temp_f_milli(t) < 80_000,
    ensures
        spec_heat_index_milli(t, rh) == t,
{
}

/// Evaluates the regression polynomial.
fn heat_index_poly(tf: i64, rh: i64) -> (r: i64)
    requires
        -220_000_000 <= tf <= 220_000_000,
        -100_000_000 <= rh <= 100_000_000,
    ensures
        r == spec_heat_index_f_milli(tf as int, rh as int),
        -2_000_000_000_000_000_000 <= r <= 2_000_000_000_000_000_000,
{
    let t = tf as i128;
    let h = rh as i128;
    let p1: i128 = 204_901_523 * t;
    let t1 = div_floor_i128(p1, 100_000_000);
    proof {
        lemma_div_bounded(p1 as int, 100_000_000, 1_000_000_000);
    }
    let p2: i128 = 1_014_333_127 * h;
    let t2 = div_floor_i128(p2, 100_000_000);
    proof {
        lemma_div_bounded(p2 as int, 100_000_000, 2_000_000_000);
    }
    let p3a: i128 = -(22_475_541 * t);
    proof {
        assert(-5_000_000_000_000_000_000_000_000 <= p3a as int * h as int
            <= 5_000_000_000_000_000_000_000_000) by (nonlinear_arith)
            requires
                -5_000_000_000_000_000 <= p3a as int <= 5_000_000_000_000_000,
                -100_000_000 <= h as int <= 100_000_000,
        ;
    }
    let p3: i128 = p3a * h;
    let t3 = div_floor_i128(p3, 100_000_000_000);
    proof {
        lemma_div_bounded(p3 as int, 100_000_000_000, 50_000_000_000_000);
    }
    let p4a: i128 = -(683_783 * t);
    proof {
        assert(-34_000_000_000_000_000_000_000 <= p4a as int * t as int
            <= 34_000_000_000_000_000_000_000) by (nonlinear_arith)
            requires
                -150_500_000_000_000 <= p4a as int <= 150_500_000_000_000,
                -220_000_000 <= t as int <= 220_000_000,
        ;
    }
    let p4: i128 = p4a * t;
    let t4 = div_floor_i128(p4, 100_000_000_000);
    proof {
        lemma_div_bounded(p4 as int, 100_000_000_000, 340_000_000_000);
    }
    let p5a: i128 = -(5_481_717 * h);
    proof {
        assert(-55_000_000_000_000_000_000_000 <= p5a as int * h as int
            <= 55_000_000_000_000_000_000_000) by (nonlinear_arith)
            requires
                -550_000_000_000_000 <= p5a as int <= 550_000_000_000_000,
                -100_000_000 <= h as int <= 100_000_000,
        ;
    }
    let p5: i128 = p5a * h;
    let t5 = div_floor_i128(p5, 100_000_000_000);
    proof {
        lemma_div_bounded(p5 as int, 100_000_000_000, 550_000_000_000);
    }
    let p6a: i128 = 122_874 * t;
    proof {
        assert(-6_000_000_000_000_000_000_000 <= p6a as int * t as int
            <= 6_000_000_000_000_000_000_000) by (nonlinear_arith)
            requires
                -27_100_000_000_000 <= p6a as int <= 27_100_000_000_000,
                -220_000_000 <= t as int <= 220_000_000,
        ;
    }
    let p6b: i128 = p6a * t;
    proof {
        assert(-600_000_000_000_000_000_000_000_000_000 <= p6b as int * h as int
            <= 600_000_000_000_000_000_000_000_000_000) by (nonlinear_arith)
            requires
                -6_000_000_000_000_000_000_000 <= p6b as int <= 6_000_000_000_000_000_000_000,
                -100_000_000 <= h as int <= 100_000_000,
        ;
    }
    let p6: i128 = p6b * h;
    let t6 = div_floor_i128(p6, 100_000_000_000_000);
    proof {
        lemma_div_bounded(p6 as int, 100_000_000_000_000, 6_000_000_000_000_000);
    }
    let p7a: i128 = 85_282 * t;
    proof {
        assert(-2_000_000_000_000_000_000_000 <= p7a as int * h as int
            <= 2_000_000_000_000_000_000_000) by (nonlinear_arith)
            requires
                -19_000_000_000_000 <= p7a as int <= 19_000_000_000_000,
                -100_000_000 <= h as int <= 100_000_000,
        ;
    }
    let p7b: i128 = p7a * h;
    proof {
        assert(-200_000_000_000_000_000_000_000_000_000 <= p7b as int * h as int
            <= 200_000_000_000_000_000_000_000_000_000) by (nonlinear_arith)
            requires
                -2_000_000_000_000_000_000_000 <= p7b as int <= 2_000_000_000_000_000_000_000,
                -100_000_000 <= h as int <= 100_000_000,
        ;
    }
    let p7: i128 = p7b * h;
    let t7 = div_floor_i128(p7, 100_000_000_000_000);
    proof {
        lemma_div_bounded(p7 as int, 100_000_000_000_000, 2_000_000_000_000_000);
    }
    let p8a: i128 = -(199 * t);
    proof {
        assert(-10_000_000_000_000_000_000 <= p8a as int * t as int
            <= 10_000_000_000_000_000_000) by (nonlinear_arith)
            requires
                -44_000_000_000 <= p8a as int <= 44_000_000_000,
                -220_000_000 <= t as int <= 220_000_000,
        ;
    }
    let p8b: i128 = p8a * t;
    proof {
        assert(-1_000_000_000_000_000_000_000_000_000 <= p8b as int * h as int
            <= 1_000_000_000_000_000_000_000_000_000) by (nonlinear_arith)
            requires
                -10_000_000_000_000_000_000 <= p8b as int <= 10_000_000_000_000_000_000,
                -100_000_000 <= h as int <= 100_000_000,
        ;
    }
    let p8c: i128 = p8b * h;
    proof {
        assert(-100_000_000_000_000_000_000_000_000_000_000_000 <= p8c as int * h as int
            <= 100_000_000_000_000_000_000_000_000_000_000_000) by (nonlinear_arith)
            requires
                -1_000_000_000_000_000_000_000_000_000 <= p8c as int
                    <= 1_000_000_000_000_000_000_000_000_000,
                -100_000_000 <= h as int <= 100_000_000,
        ;
    }
    let p8: i128 = p8c * h;
    let t8 = div_floor_i128(p8, 100_000_000_000_000_000);
    proof {
        lemma_div_bounded(p8 as int, 100_000_000_000_000_000, 1_000_000_000_000_000_000);
    }
    let s: i128 = -42_379 + t1 + t2 + t3 + t4 + t5 + t6 + t7 + t8;
    s as i64
}

/// Heat index of a temperature and humidity reading, in milli-degrees
/// Celsius.
pub fn heat_index_milli(t: i64, rh: i64) -> (r: i64)
    requires
        -100_000_000 <= t <= 100_000_000,
        -100_000_000 <= rh <= 100_000_000,
    ensures
        r == spec_heat_index_milli(t as int, rh as int),
        spec_temp_f_milli(t as int) < 80_000 ==> r == t,
{
    let t9 = t * 9;
    let tdiv = div_floor_i64(t9, 5);
    proof {
        lemma_div_bounded(t9 as int, 5, 180_000_000);
    }
    let tf = tdiv + 32_000;
    if tf < 80_000 {
        return t;
    }
    let hif = heat_index_poly(tf, rh);
    let num: i128 = (hif as i128 - 32_000) * 5;
    let r = div_floor_i128(num, 9);
    proof {
        lemma_div_bounded(num as int, 9, 1_200_000_000_000_000_000);
    }
    r as i64
}

/// Dew point by the Magnus approximation, in milli-degrees Celsius. At
/// full saturation it is the temperature itself; below, the saturation
/// deficit pulls it down through the scaled logarithm.
pub open spec fn spec_dew_point_milli(t: int, rh: int) -> int {
    if rh == 100_000 {
        t
    } else {
        let alpha = spec_dew_alpha_micro(t, rh);
        237_700 * alpha / (17_270_000 - alpha)
    }
}

/// The saturation exponent of the Magnus inversion, at micro scale. The
/// inversion has a pole where it reaches 17.27: at or past it no dew
/// point is defined.
pub open spec fn spec_dew_alpha_micro(t: int, rh: int) -> int {
    17_270_000 * t / (237_700 + t) + spec_ln_ratio_micro(rh)
}

/// Core ordering argument: with a non-positive logarithm term the Magnus
/// inversion cannot exceed the temperature, and it never falls below the
/// asymptote of the formula.
proof fn lemma_dew_point_core(t: int, gamma: int, lnv: int)
    requires
        -237_700 < t,
        gamma == 17_270_000 * t / (237_700 + t),
        lnv <= 0,
    ensures
        gamma + lnv < 17_270_000,
        237_700 * (gamma + lnv) / (17_270_000 - (gamma + lnv)) <= t,
        237_700 * (gamma + lnv) / (17_270_000 - (gamma + lnv)) >= -237_701,
{
    let a = 17_270_000int;
    let b = 237_700int;
    let d = b + t;
    let alpha = gamma + lnv;
    lemma_fundamental_div_mod(a * t, d);
    lemma_mod_division_less_than_divisor(a * t, d);
    assert(d * gamma <= a * t);
    assert(a * t < a * d) by (nonlinear_arith)
        requires
            d == b + t,
            a == 17_270_000,
            b == 237_700,
    ;
    assert(gamma < a) by (nonlinear_arith)
        requires
            d >= 1,
            d * gamma <= a * t,
            a * t < a * d,
    ;
    assert(alpha < a);
    let den = a - alpha;
    assert(d * alpha <= d * gamma) by (nonlinear_arith)
        requires
            d >= 1,
            alpha <= gamma,
    ;
    assert(b * alpha <= t * den) by (nonlinear_arith)
        requires
            d == b + t,
            den == a - alpha,
            d * alpha <= a * t,
    ;
    lemma_div_is_ordered(b * alpha, t * den, den);
    vstd::arithmetic::div_mod::lemma_div_multiples_vanish(t, den);
    assert(t * den == den * t) by (nonlinear_arith);
    assert(b * alpha / den <= t);
    lemma_dew_lower_bound(alpha);
}

/// The dew point never exceeds the temperature while the air is not
/// saturated, and equals it exactly at 100 percent humidity.
pub proof fn lemma_dew_point_le_temperature(t: int, rh: int)
    requires
        -237_700 < t,
        1 <= rh <= 100_000,
    ensures
        spec_dew_point_milli(t, rh) <= t,
        rh == 100_000 ==> spec_dew_point_milli(t, rh) == t,
{
    if rh < 100_000 {
        crate::math::lemma_ln_ratio_nonpos(rh);
        let gamma = 17_270_000 * t / (237_700 + t);
        lemma_dew_point_core(t, gamma, spec_ln_ratio_micro(rh));
    }
}

/// The Magnus inversion never falls below its asymptote.
proof fn lemma_dew_lower_bound(alpha: int)
    requires
        alpha < 17_270_000,
    ensures
        237_700 * alpha / (17_270_000 - alpha) >= -237_701,
{
    let a = 17_270_000int;
    let b = 237_700int;
    let den = a - alpha;
    if alpha >= 0 {
        assert(b * alpha >= 0) by (nonlinear_arith)
            requires
                alpha >= 0,
                b == 237_700,
        ;
        vstd::arithmetic::div_mod::lemma_div_pos_is_pos(b * alpha, den);
    } else {
        assert(b * alpha >= (-b - 1) * den) by (nonlinear_arith)
            requires
                den == a - alpha,
                alpha < 0,
                b == 237_700,
                a == 17_270_000,
        ;
        lemma_div_is_ordered((-b - 1) * den, b * alpha, den);
        vstd::arithmetic::div_mod::lemma_div_multiples_vanish(-b - 1, den);
        assert((-b - 1) * den == den * (-b - 1)) by (nonlinear_arith);
    }
}

/// Dew point of a temperature and humidity reading. Present exactly when
/// the saturation exponent stays below the pole of the inversion; at or
/// below full saturation it always is, and the dew point then never
/// exceeds the temperature.
pub fn dew_point_milli(t: i64, rh: i64) -> (r: Option<i64>)
    requires
        -237_700 < t <= 100_000_000,
        1 <= rh <= 100_000_000,
    ensures
        r is Some <==> spec_dew_alpha_micro(t as int, rh as int) < 17_270_000,
        r is Some ==> r.unwrap() == spec_dew_point_milli(t as int, rh as int),
        rh <= 100_000 ==> r is Some && r.unwrap() <= t,
        rh == 100_000 ==> r is Some && r.unwrap() == t,
{
    let lnv = ln_ratio_micro(rh);
    let d = 237_700 + t;
    let num = 17_270_000 * t;
    let gamma = div_floor_i64(num, d);
    let alpha = gamma + lnv;
    proof {
        if rh <= 100_000 {
            crate::math::lemma_ln_ratio_nonpos(rh as int);
            lemma_dew_point_core(t as int, gamma as int, lnv as int);
        }
    }
    if rh == 100_000 {
        return Some(t);
    }
    if alpha >= 17_270_000 {
        return None;
    }
    proof {
        lemma_dew_lower_bound(alpha as int);
        assert(237_700 * (alpha as int) <= 237_700 * 17_270_000);
    }
    let dw = div_floor_i128(237_700 * (alpha as i128), 17_270_000 - (alpha as i128));
    Some(dw as i64)
}

/// Sub-score of the temperature for comfort: full inside the ideal band,
/// linearly decaying outside it.
pub open spec fn spec_temp_score(t: int) -> int {
    if 20_000 <= t && t <= 24_000 {
        100_000
    } else if 18_000 <= t && t <= 26_000 {
        80_000 - abs(t - 22_000) * 10
    } else {
        50_000 - abs(t - 22_000) * 5
    }
}

/// Sub-score of the humidity for comfort.
pub open spec fn spec_hum_score(h: int) -> int {
    if 40_000 <= h && h <= 60_000 {
        100_000
    } else if 30_000 <= h && h <= 70_000 {
        80_000 - abs(h - 50_000)
    } else {
        50_000 - abs(h - 50_000) / 2
    }
}

/// Comfort level in milli-units of [0, 100]: the weighted sub-scores,
/// clamped into the scale.
pub open spec fn spec_comfort_milli(t: int, h: int) -> int {
    let w = (spec_temp_score(t) * 6 + spec_hum_score(h) * 4) / 10;
    if w < 0 {
        0
    } else if w > 100_000 {
        100_000
    } else {
        w
    }
}

/// The comfort level is always within [0, 100] units, whatever finite
/// values arrive.
pub proof fn lemma_comfort_in_scale(t: int, h: int)
    ensures
        0 <= spec_comfort_milli(t, h) <= 100_000,
{
}

/// Absolute distance from a band center.
fn abs_diff(x: i64, c: i64) -> (r: i64)
    requires
        -2_000_000_000_000 <= x <= 2_000_000_000_000,
        0 <= c <= 100_000,
    ensures
        r == abs(x as int - c as int),
        0 <= r <= 2_100_000_000_000,
{
    if x >= c {
        x - c
    } else {
        c - x
    }
}

/// Comfort level of a temperature and humidity reading.
pub fn comfort_level_milli(t: i64, h: i64) -> (r: i64)
    requires
        -MAX_ABS_MILLI <= t <= MAX_ABS_MILLI,
        -MAX_ABS_MILLI <= h <= MAX_ABS_MILLI,
    ensures
        r == spec_comfort_milli(t as int, h as int),
        0 <= r <= 100_000,
{
    let ts: i64 = if 20_000 <= t && t <= 24_000 {
        100_000
    } else if 18_000 <= t && t <= 26_000 {
        80_000 - abs_diff(t, 22_000) * 10
    } else {
        50_000 - abs_diff(t, 22_000) * 5
    };
    let hs: i64 = if 40_000 <= h && h <= 60_000 {
        100_000
    } else if 30_000 <= h && h <= 70_000 {
        80_000 - abs_diff(h, 50_000)
    } else {
        let half = abs_diff(h, 50_000) / 2;
        50_000 - half
    };
    let num = ts * 6 + hs * 4;
    let w = div_floor_i64(num, 10);
    proof {
        lemma_div_bounded(num as int, 10, 10_000_000_000_000);
    }
    if w < 0 {
        0
    } else if w > 100_000 {
        100_000
    } else {
        w
    }
}


/// The heat index is derived when both readings are present, finite, and
/// within the fixed-point domain of the regression.
pub open spec fn heat_index_applicable(t: Option<MetricView>, h: Option<MetricView>) -> bool {
    match (t, h) {
        (Some(tm), Some(hm)) => {
            &&& tm.value is Finite
            &&& hm.value is Finite
            &&& -100_000_000 <= tm.value.spec_milli() <= 100_000_000
            &&& -100_000_000 <= hm.value.spec_milli() <= 100_000_000
        },
        _ => false,
    }
}

/// The dew point's fixed-point domain: both readings present and finite,
/// the temperature above the asymptote of the Magnus formula, and the
/// humidity positive (any magnitude, supersaturation included).
pub open spec fn dew_point_domain(t: Option<MetricView>, h: Option<MetricView>) -> bool {
    match (t, h) {
        (Some(tm), Some(hm)) => {
            &&& tm.value is Finite
            &&& hm.value is Finite
            &&& -237_700 < tm.value.spec_milli() <= 100_000_000
            &&& 1 <= hm.value.spec_milli() <= 100_000_000
        },
        _ => false,
    }
}

/// The dew point is derived on the whole domain above, except where the
/// saturation exponent reaches the pole of the inversion.
pub open spec fn dew_point_applicable(t: Option<MetricView>, h: Option<MetricView>) -> bool {
    dew_point_domain(t, h) && spec_dew_alpha_micro(
        t.unwrap().value.spec_milli() as int,
        h.unwrap().value.spec_milli() as int,
    ) < 17_270_000
}

/// The comfort level is derived whenever both readings are present and
/// finite.
pub open spec fn comfort_applicable(t: Option<MetricView>, h: Option<MetricView>) -> bool {
    match (t, h) {
        (Some(tm), Some(hm)) => tm.value is Finite && hm.value is Finite,
        _ => false,
    }
}

/// The derived block matches the metrics of the reading: each derived
/// value is present exactly when applicable and then carries the value
/// of its formula, the anomaly flag is the threshold-rule decision, and
/// the statistics name each metric's current value.
pub open spec fn computed_matches(c: crate::models::ComputedMetrics, metrics: Seq<SensorMetric>) -> bool {
    let mv = metrics_view(metrics);
    let ft = first_temperature(mv);
    let fh = first_humidity(mv);
    let tv = ft.unwrap().value.spec_milli() as int;
    let hv = fh.unwrap().value.spec_milli() as int;
    &&& c.is_anomaly == spec_is_anomaly(mv)
    &&& if heat_index_applicable(ft, fh) {
        c.heat_index is Some && c.heat_index.unwrap() == spec_heat_index_milli(tv, hv)
    } else {
        c.heat_index is None
    }
    &&& if dew_point_applicable(ft, fh) {
        c.dew_point is Some && c.dew_point.unwrap() == spec_dew_point_milli(tv, hv)
    } else {
        c.dew_point is None
    }
    &&& if comfort_applicable(ft, fh) {
        c.comfort_level is Some && c.comfort_level.unwrap() == spec_comfort_milli(tv, hv)
    } else {
        c.comfort_level is None
    }
    &&& c.stats@.len() == metrics.len()
    &&& forall|i: int| 0 <= i < metrics.len() ==> (#[trigger] c.stats@[i]).value == metrics[i].value
    &&& forall|i: int|
        0 <= i < metrics.len() ==> (#[trigger] c.stats@[i]).measurement@ == metrics[i].measurement@
            + "_current"@
}

/// Derives the computed block of a reading.
pub fn compute_metrics(metrics: &Vec<SensorMetric>) -> (r: crate::models::ComputedMetrics)
    requires
        metrics_in_range(metrics_view(metrics@)),
    ensures
        computed_matches(r, metrics@),
{
    let ghost mv = metrics_view(metrics@);
    let ti = find_temperature(metrics);
    let hi = find_humidity(metrics);
    let mut heat_index: Option<i64> = None;
    let mut dew_point: Option<i64> = None;
    let mut comfort_level: Option<i64> = None;
    if let (Some(t_idx), Some(h_idx)) = (ti, hi) {
        let tv = metrics[t_idx].value;
        let hv = metrics[h_idx].value;
        proof {
            assert(mv[t_idx as int] == metrics@[t_idx as int]@);
            assert(mv[h_idx as int] == metrics@[h_idx as int]@);
            assert((#[trigger] mv[t_idx as int]).value.in_range());
            assert(mv[h_idx as int].value.in_range());
        }
        match (tv, hv) {
            (MetricValue::Finite(t), MetricValue::Finite(h)) => {
                comfort_level = Some(comfort_level_milli(t, h));
                if -100_000_000 <= t && t <= 100_000_000 && -100_000_000 <= h && h
                    <= 100_000_000 {
                    heat_index = Some(heat_index_milli(t, h));
                }
                if t > -237_700 && t <= 100_000_000 && 1 <= h && h <= 100_000_000 {
                    dew_point = dew_point_milli(t, h);
                }
            },
            _ => {},
        }
    }
    let is_anomaly = detect_anomaly(metrics);
    let mut stats: Vec<SensorMetric> = Vec::new();
    let mut i: usize = 0;
    while i < metrics.len()
        invariant
            i <= metrics@.len(),
            stats@.len() == i,
            forall|j: int| 0 <= j < i ==> (#[trigger] stats@[j]).value == metrics@[j].value,
            forall|j: int|
                0 <= j < i ==> (#[trigger] stats@[j]).measurement@ == metrics@[j].measurement@
                    + "_current"@,
        decreases metrics@.len() - i,
    {
        let name = metrics[i].measurement.clone().concat("_current");
        stats.push(SensorMetric { measurement: name, value: metrics[i].value });
        i = i + 1;
    }
    crate::models::ComputedMetrics { heat_index, dew_point, comfort_level, is_anomaly, stats }
}

/// An earlier entry of the list already carries this measurement name.
pub open spec fn name_seen(metrics: Seq<SensorMetric>, upto: int, name: Seq<char>) -> bool {
    exists|j: int| 0 <= j < upto && (#[trigger] metrics[j]).measurement@ == name
}

/// The distinct measurement names of a reading: each name at its first
/// occurrence, in reading order.
pub open spec fn spec_measurement_types(metrics: Seq<SensorMetric>) -> Seq<String>
    decreases metrics.len(),
{
    if metrics.len() == 0 {
        Seq::empty()
    } else {
        spec_measurement_types(metrics.drop_last()) + (if name_seen(
            metrics,
            metrics.len() - 1,
            metrics.last().measurement@,
        ) {
            Seq::empty()
        } else {
            seq![metrics.last().measurement]
        })
    }
}

/// Collects the distinct measurement names of a reading.
fn collect_measurement_types(metrics: &Vec<SensorMetric>) -> (r: Vec<String>)
    ensures
        r@ == spec_measurement_types(metrics@),
{
    let mut out: Vec<String> = Vec::new();
    let mut i: usize = 0;
    while i < metrics.len()
        invariant
            i <= metrics@.len(),
            out@ == spec_measurement_types(metrics@.take(i as int)),
        decreases metrics@.len() - i,
    {
        let ghost nm = metrics@[i as int].measurement@;
        let mut seen = false;
        let mut j: usize = 0;
        while j < i
            invariant
                j <= i,
                i < metrics@.len(),
                nm == metrics@[i as int].measurement@,
                seen == name_seen(metrics@, j as int, nm),
            decreases i - j,
        {
            let eq = crate::text::str_eq(
                metrics[j].measurement.as_str(),
                metrics[i].measurement.as_str(),
            );
            proof {
                if eq {
                    assert((#[trigger] metrics@[j as int]).measurement@ == nm);
                    assert(name_seen(metrics@, j + 1, nm));
                } else {
                    assert(name_seen(metrics@, j + 1, nm) == name_seen(metrics@, j as int, nm))
                        by {
                        if name_seen(metrics@, j + 1, nm) {
                            let w = choose|w: int|
                                0 <= w < j + 1 && (#[trigger] metrics@[w]).measurement@ == nm;
                            assert(w < j);
                        }
                        if name_seen(metrics@, j as int, nm) {
                            let w = choose|w: int|
                                0 <= w < j && (#[trigger] metrics@[w]).measurement@ == nm;
                            assert(0 <= w < j + 1 && metrics@[w].measurement@ == nm);
                        }
                    }
                }
            }
            seen = seen || eq;
            j = j + 1;
        }
        proof {
            assert(metrics@.take(i + 1 as int).drop_last() =~= metrics@.take(i as int));
            assert(metrics@.take(i + 1 as int).last() == metrics@[i as int]);
            assert(name_seen(metrics@.take(i + 1 as int), i as int, nm) == name_seen(
                metrics@,
                i as int,
                nm,
            )) by {
                if name_seen(metrics@.take(i + 1 as int), i as int, nm) {
                    let w = choose|w: int|
                        0 <= w < i && (#[trigger] metrics@.take(i + 1 as int)[w]).measurement@
                            == nm;
                    assert((#[trigger] metrics@[w]).measurement@ == nm);
                }
                if name_seen(metrics@, i as int, nm) {
                    let w = choose|w: int|
                        0 <= w < i && (#[trigger] metrics@[w]).measurement@ == nm;
                    assert((#[trigger] metrics@.take(i + 1 as int)[w]).measurement@ == nm);
                }
            }
        }
        if !seen {
            out.push(metrics[i].measurement.clone());
        }
        i = i + 1;
    }
    proof {
        assert(metrics@.take(metrics@.len() as int) =~= metrics@);
    }
    out
}

/// The record is the enrichment of `input` under the given identifier and
/// timestamp: the header and metrics are kept, the derived block, quality
/// block and metadata are those of the pipeline.
pub open spec fn record_enriches(
    r: crate::models::ProcessedSensorData,
    input: SensorDataInput,
    id: u128,
    now_millis: i64,
) -> bool {
    let mv = metrics_view(input.metrics@);
    let anomaly = spec_is_anomaly(mv);
    &&& r.id == id
    &&& r.header == input.header
    &&& r.metrics@ == input.metrics@
    &&& r.gateway_timestamp == now_millis
    &&& computed_matches(r.computed, input.metrics@)
    &&& r.quality.score == spec_quality_score(
        spec_deductions(mv, anomaly, input.header.location@),
    )
    &&& r.quality.issues@ == spec_issues(input.metrics@, anomaly, is_blank(input.header.location@))
    &&& r.quality.corrected == false
    &&& r.metadata.metrics_count == input.metrics@.len()
    &&& r.metadata.measurement_types@ == spec_measurement_types(input.metrics@)
    &&& r.metadata.should_requeue == input.header.should_requeue
}

/// Enriches one reading under a caller-chosen identifier and timestamp.
pub fn process_reading_at(input: SensorDataInput, id: u128, now_millis: i64) -> (r:
    crate::models::ProcessedSensorData)
    requires
        input.in_range(),
    ensures
        record_enriches(r, input, id, now_millis),
{
    let computed = compute_metrics(&input.metrics);
    let anomaly = computed.is_anomaly;
    let quality = assess_quality(&input, anomaly);
    let measurement_types = collect_measurement_types(&input.metrics);
    let metrics_count = input.metrics.len();
    let metadata = crate::models::ProcessedMetadata {
        metrics_count,
        measurement_types,
        should_requeue: input.header.should_requeue,
    };
    crate::models::ProcessedSensorData {
        id,
        header: input.header,
        metrics: input.metrics,
        gateway_timestamp: now_millis,
        computed,
        quality,
        metadata,
    }
}

/// The enrichment pipeline. It holds the shared configuration; the
/// computation itself is a pure function of each reading.
pub struct EdgeProcessor {
    config: std::sync::Arc<crate::config::Config>,
}

impl EdgeProcessor {
    /// The configuration this pipeline was built with.
    pub closed spec fn spec_config(&self) -> std::sync::Arc<crate::config::Config> {
        self.config
    }

    /// Builds a pipeline over the shared configuration.
    pub fn new(config: std::sync::Arc<crate::config::Config>) -> (r: Self)
        ensures
            r.spec_config() == config,
    {
        EdgeProcessor { config }
    }

    /// Enriches one reading, under a fresh identifier and the current
    /// wall-clock time.
    pub fn process_reading(&self, input: SensorDataInput) -> (r: crate::models::ProcessedSensorData)
        requires
            input.in_range(),
        ensures
            record_enriches(r, input, r.id, r.gateway_timestamp),
    {
        let id = crate::runtime::fresh_record_id();
        let now = crate::runtime::current_timestamp_millis();
        process_reading_at(input, id, now)
    }

    /// Enriches a batch of readings, keeping their order.
    pub fn process_batch(&self, inputs: Vec<SensorDataInput>) -> (r: Vec<
        crate::models::ProcessedSensorData,
    >)
        requires
            forall|i: int| 0 <= i < inputs@.len() ==> (#[trigger] inputs@[i]).in_range(),
        ensures
            r@.len() == inputs@.len(),
            forall|i: int|
                0 <= i < inputs@.len() ==> record_enriches(
                    #[trigger] r@[i],
                    inputs@[i],
                    r@[i].id,
                    r@[i].gateway_timestamp,
                ),
    {
        let mut results: Vec<crate::models::ProcessedSensorData> = Vec::new();
        let mut i: usize = 0;
        let ghost original = inputs@;
        while i < inputs.len()
            invariant
                i <= inputs@.len(),
                inputs@ == original,
                results@.len() == i,
                forall|k: int| 0 <= k < original.len() ==> (#[trigger] original[k]).in_range(),
                forall|k: int|
                    0 <= k < i ==> record_enriches(
                        #[trigger] results@[k],
                        original[k],
                        results@[k].id,
                        results@[k].gateway_timestamp,
                    ),
            decreases inputs@.len() - i,
        {
            let input = inputs[i].clone();
            proof {
                assert(original[i as int].in_range());
            }
            let processed = self.process_reading(input);
            results.push(processed);
            i = i + 1;
        }
        results
    }
}

} // verus!
