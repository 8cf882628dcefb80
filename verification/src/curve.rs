//! Fan curves and the per-tick duty computation.
//!
//! A fan curve is an ordered list of points, each mapping a temperature
//! threshold (degrees Celsius) to a target duty cycle.  Duty cycles are kept
//! in milli-percent (thousandths of a percent), so that fractional
//! percentages survive without floating point: `50_000` means 50%.
//!
//! For a measured temperature the curve is scanned in ascending order; the
//! first adjacent pair whose half-open temperature range contains the
//! measurement selects the segment, and the duty percentage is interpolated
//! linearly between the pair's duty values.  The hardware duty value (PWM) is
//! `round(255 * percent / 100)`.

use vstd::prelude::*;

verus! {

/// One point of a fan curve: at `temp` degrees Celsius the fan should run at
/// `duty` milli-percent of its maximum speed.
#[derive(Clone, Copy, PartialEq, Eq, Structural, Debug)]
pub struct CurvePoint {
    /// Temperature threshold in whole degrees Celsius.
    pub temp: i64,
    /// Target duty cycle in milli-percent: `0` is 0%, `100_000` is 100%.
    pub duty: i64,
}

/// Largest magnitude accepted for a curve temperature.  Physical
/// temperatures are tiny compared to this; the bound exists so that the
/// interpolation arithmetic provably fits in 64 bits.
pub const TEMP_LIMIT: i64 = 1_000_000;

/// A full duty cycle (100%) in milli-percent.
pub const DUTY_FULL: i64 = 100_000;

/// A single curve point is well formed when its temperature is within the
/// machine bound and its duty cycle is between 0% and 100%.
pub open spec fn point_wf(p: CurvePoint) -> bool {
    &&& -TEMP_LIMIT <= p.temp <= TEMP_LIMIT
    &&& 0 <= p.duty <= DUTY_FULL
}

/// Curve invariant: every point is well formed and the temperatures are
/// strictly ascending, so each temperature appears at most once and a scan
/// in list order is a scan in ascending temperature order.
pub open spec fn curve_wf(c: Seq<CurvePoint>) -> bool {
    &&& forall|i: int| 0 <= i < c.len() ==> point_wf(#[trigger] c[i])
    &&& forall|i: int| 0 <= i && i + 1 < c.len() ==> (#[trigger] c[i]).temp < c[i + 1].temp
}

/// Round-half-up division, for a non-negative numerator and a positive
/// denominator: `round_div(n, d)` is the integer nearest to the rational
/// `n / d`, with halves rounded up.
pub open spec fn round_div(n: int, d: int) -> int
    recommends
        n >= 0,
        d > 0,
{
    (2 * n + d) / (2 * d)
}

/// Numerator of the interpolated duty (in milli-percent) for temperature
/// `te` inside the segment `lo..hi`, over the denominator `seg_den`.  As a
/// rational, `seg_num / seg_den` is exactly
/// `lo.duty + (hi.duty - lo.duty) * (te - lo.temp) / (hi.temp - lo.temp)`.
pub open spec fn seg_num(lo: CurvePoint, hi: CurvePoint, te: int) -> int {
    lo.duty * (hi.temp - lo.temp) + (hi.duty - lo.duty) * (te - lo.temp)
}

/// Denominator of the interpolated duty for the segment `lo..hi`.
pub open spec fn seg_den(lo: CurvePoint, hi: CurvePoint) -> int {
    hi.temp - lo.temp
}

/// The hardware duty value for temperature `te` in the segment `lo..hi`:
/// `round(255 * percent / 100)` with `percent = (seg_num / seg_den) / 1000`,
/// written as a single exact rational rounding.
pub open spec fn seg_pwm(lo: CurvePoint, hi: CurvePoint, te: int) -> int {
    round_div(255 * seg_num(lo, hi, te), 100_000 * seg_den(lo, hi))
}

/// The duty value one control-loop tick writes for temperature `te`, or
/// `None` when no adjacent pair's half-open range `[lo.temp, hi.temp)`
/// contains `te` (then nothing is written that tick).  The first matching
/// pair in list order wins.
pub open spec fn tick_pwm(c: Seq<CurvePoint>, te: int) -> Option<int>
    decreases c.len(),
{
    if c.len() < 2 {
        None
    } else if c[0].temp <= te < c[1].temp {
        Some(seg_pwm(c[0], c[1], te))
    } else {
        tick_pwm(c.skip(1), te)
    }
}

/// In a well-formed curve the temperatures are pairwise (not merely
/// adjacently) strictly ascending.
pub proof fn lemma_curve_sorted(c: Seq<CurvePoint>, i: int, j: int)
    requires
        curve_wf(c),
        0 <= i < j < c.len(),
    ensures
        c[i].temp < c[j].temp,
    decreases j - i,
{
    if i + 1 < j {
        lemma_curve_sorted(c, i + 1, j);
    }
}

/// The interpolation numerator can be regrouped around the two segment ends:
/// weighing `lo.duty` by the distance to `hi` and `hi.duty` by the distance
/// from `lo`.  This form shows at sight that the numerator is non-negative
/// and at most a full duty times the denominator.
pub proof fn lemma_seg_num_bounds(lo: CurvePoint, hi: CurvePoint, te: int)
    requires
        point_wf(lo),
        point_wf(hi),
        lo.temp <= te < hi.temp,
    ensures
        seg_num(lo, hi, te) == lo.duty * (hi.temp - te) + hi.duty * (te - lo.temp),
        0 <= seg_num(lo, hi, te) <= DUTY_FULL * seg_den(lo, hi),
{
    assert(seg_num(lo, hi, te) == lo.duty * (hi.temp - te) + hi.duty * (te - lo.temp))
        by (nonlinear_arith);
    assert(0 <= lo.duty * (hi.temp - te) + hi.duty * (te - lo.temp) <= DUTY_FULL * (hi.temp
        - lo.temp)) by (nonlinear_arith)
        requires
            0 <= lo.duty <= DUTY_FULL,
            0 <= hi.duty <= DUTY_FULL,
            lo.temp <= te < hi.temp,
    ;
}

/// The duty value of a segment is always within the hardware range 0..=255.
pub proof fn lemma_seg_pwm_range(lo: CurvePoint, hi: CurvePoint, te: int)
    requires
        point_wf(lo),
        point_wf(hi),
        lo.temp <= te < hi.temp,
    ensures
        0 <= seg_pwm(lo, hi, te) <= 255,
{
    lemma_seg_num_bounds(lo, hi, te);
    let n = 255 * seg_num(lo, hi, te);
    let d = 100_000 * seg_den(lo, hi);
    assert(d > 0);
    assert(n >= 0) by (nonlinear_arith)
        requires
            seg_num(lo, hi, te) >= 0,
            n == 255 * seg_num(lo, hi, te),
    ;
    assert(2 * n + d <= 511 * d) by (nonlinear_arith)
        requires
            seg_num(lo, hi, te) <= DUTY_FULL * seg_den(lo, hi),
            n == 255 * seg_num(lo, hi, te),
            d == 100_000 * seg_den(lo, hi),
            seg_den(lo, hi) > 0,
    ;
    vstd::arithmetic::div_mod::lemma_div_is_ordered(0, 2 * n + d, 2 * d);
    vstd::arithmetic::div_mod::lemma_div_is_ordered(2 * n + d, 511 * d, 2 * d);
    assert(511 * d == 255 * (2 * d) + d) by (nonlinear_arith);
    vstd::arithmetic::div_mod::lemma_fundamental_div_mod_converse(511 * d, 2 * d, 255, d);
    vstd::arithmetic::div_mod::lemma_basic_div(0, 2 * d);
}

/// Below the first point's temperature no segment matches: the tick writes
/// nothing.
pub proof fn lemma_tick_below_first(c: Seq<CurvePoint>, te: int)
    requires
        curve_wf(c),
        c.len() > 0,
        te < c[0].temp,
    ensures
        tick_pwm(c, te) is None,
    decreases c.len(),
{
    if c.len() >= 2 {
        lemma_tick_below_first(c.skip(1), te);
    }
}

/// At or above the last point's temperature no segment matches: the tick
/// writes nothing.
pub proof fn lemma_tick_at_or_above_last(c: Seq<CurvePoint>, te: int)
    requires
        curve_wf(c),
        c.len() > 0,
        te >= c.last().temp,
    ensures
        tick_pwm(c, te) is None,
    decreases c.len(),
{
    if c.len() >= 2 {
        if c.len() > 2 {
            lemma_curve_sorted(c, 1, c.len() - 1);
        }
        assert(c.skip(1).last() == c.last());
        assert(curve_wf(c.skip(1))) by {
            assert(forall|i: int| 0 <= i < c.skip(1).len() ==> c.skip(1)[i] == c[i + 1]);
        }
        lemma_tick_at_or_above_last(c.skip(1), te);
    }
}

/// Scanning one pair further: when the first pair does not contain `te`,
/// the answer over the whole curve is the answer over the curve without its
/// first point.
proof fn lemma_tick_step(c: Seq<CurvePoint>, i: int, te: int)
    requires
        0 <= i,
        i + 1 < c.len(),
        !(c[i].temp <= te < c[i + 1].temp),
    ensures
        tick_pwm(c.skip(i), te) == tick_pwm(c.skip(i + 1), te),
{
    assert(c.skip(i).skip(1) =~= c.skip(i + 1));
}

/// The duty values of a curve never drop as the temperature thresholds
/// rise.  Curves of this shape give a monotone fan response (see
/// `lemma_duty_monotone`).
pub open spec fn duties_non_decreasing(c: Seq<CurvePoint>) -> bool {
    forall|i: int| 0 <= i && i + 1 < c.len() ==> (#[trigger] c[i]).duty <= c[i + 1].duty
}

/// The matching segment itself (the pair of points the tick interpolates
/// between), `None` when no pair's range contains `te`.  `tick_pwm` is the
/// rounded duty value of this segment.
pub open spec fn tick_seg(c: Seq<CurvePoint>, te: int) -> Option<(CurvePoint, CurvePoint)>
    decreases c.len(),
{
    if c.len() < 2 {
        None
    } else if c[0].temp <= te < c[1].temp {
        Some((c[0], c[1]))
    } else {
        tick_seg(c.skip(1), te)
    }
}

/// `tick_pwm` is exactly the rounded interpolation of the segment that
/// `tick_seg` selects.
pub proof fn lemma_tick_pwm_is_seg(c: Seq<CurvePoint>, te: int)
    ensures
        tick_pwm(c, te) == match tick_seg(c, te) {
            Some((lo, hi)) => Some(seg_pwm(lo, hi, te)),
            None => None,
        },
    decreases c.len(),
{
    if c.len() >= 2 && !(c[0].temp <= te < c[1].temp) {
        lemma_tick_pwm_is_seg(c.skip(1), te);
    }
}

/// Dropping the first point keeps a curve well formed, and keeps its duties
/// non-decreasing.
proof fn lemma_wf_skip(c: Seq<CurvePoint>)
    requires
        curve_wf(c),
        c.len() > 0,
    ensures
        curve_wf(c.skip(1)),
        duties_non_decreasing(c) ==> duties_non_decreasing(c.skip(1)),
{
    assert(forall|i: int| 0 <= i < c.skip(1).len() ==> c.skip(1)[i] == c[i + 1]);
}

/// The segment a tick selects: its ends are in range, its low end's duty is
/// at least the first point's duty, and (for a curve with non-decreasing
/// duties) its high end's duty is at least its low end's.
proof fn lemma_tick_seg_props(c: Seq<CurvePoint>, te: int)
    requires
        curve_wf(c),
        duties_non_decreasing(c),
        tick_seg(c, te) is Some,
    ensures
        ({
            let (lo, hi) = tick_seg(c, te)->Some_0;
            &&& point_wf(lo)
            &&& point_wf(hi)
            &&& lo.temp <= te < hi.temp
            &&& lo.duty <= hi.duty
            &&& c[0].duty <= lo.duty
        }),
    decreases c.len(),
{
    if !(c[0].temp <= te < c[1].temp) {
        lemma_wf_skip(c);
        lemma_tick_seg_props(c.skip(1), te);
    }
}

/// Cross-multiplied monotonicity of integer division: if the rational
/// `a / b` is at most `x / y`, so is the integer quotient.
proof fn lemma_div_cross_mono(a: int, b: int, x: int, y: int)
    requires
        b > 0,
        y > 0,
        a * y <= x * b,
    ensures
        a / b <= x / y,
{
    vstd::arithmetic::div_mod::lemma_fundamental_div_mod(a, b);
    vstd::arithmetic::div_mod::lemma_mod_bound(a, b);
    vstd::arithmetic::div_mod::lemma_fundamental_div_mod(x, y);
    vstd::arithmetic::div_mod::lemma_mod_bound(x, y);
    let q1 = a / b;
    let r1 = a % b;
    let q2 = x / y;
    let r2 = x % y;
    assert(q1 <= q2) by (nonlinear_arith)
        requires
            a == b * q1 + r1,
            x == y * q2 + r2,
            0 <= r1 < b,
            0 <= r2 < y,
            b > 0,
            y > 0,
            a * y <= x * b,
    ;
}

/// The law behind a well-shaped curve: when the temperature thresholds are
/// strictly increasing and the duty values never decrease, the interpolated
/// duty percentage is monotonically non-decreasing in the temperature,
/// wherever two temperatures both fall inside the curve's domain.  The
/// percentages are compared as exact rationals (`seg_num / seg_den`, in
/// milli-percent) by cross multiplication, and the rounded hardware duty
/// value inherits the ordering.
pub proof fn lemma_duty_monotone(c: Seq<CurvePoint>, t1: int, t2: int)
    requires
        curve_wf(c),
        duties_non_decreasing(c),
        t1 <= t2,
        tick_seg(c, t1) is Some,
        tick_seg(c, t2) is Some,
    ensures
        ({
            let (lo1, hi1) = tick_seg(c, t1)->Some_0;
            let (lo2, hi2) = tick_seg(c, t2)->Some_0;
            &&& seg_num(lo1, hi1, t1) * seg_den(lo2, hi2) <= seg_num(lo2, hi2, t2) * seg_den(
                lo1,
                hi1,
            )
            &&& seg_pwm(lo1, hi1, t1) <= seg_pwm(lo2, hi2, t2)
        }),
    decreases c.len(),
{
    let (lo1, hi1) = tick_seg(c, t1)->Some_0;
    let (lo2, hi2) = tick_seg(c, t2)->Some_0;
    lemma_tick_seg_props(c, t1);
    lemma_tick_seg_props(c, t2);
    let n1 = seg_num(lo1, hi1, t1);
    let d1 = seg_den(lo1, hi1);
    let n2 = seg_num(lo2, hi2, t2);
    let d2 = seg_den(lo2, hi2);
    if c[0].temp <= t1 < c[1].temp {
        if c[0].temp <= t2 < c[1].temp {
            assert(n1 * d2 <= n2 * d1) by (nonlinear_arith)
                requires
                    lo1 == lo2,
                    hi1 == hi2,
                    n1 == seg_num(lo1, hi1, t1),
                    n2 == seg_num(lo2, hi2, t2),
                    d1 == seg_den(lo1, hi1),
                    d2 == seg_den(lo2, hi2),
                    d1 > 0,
                    lo1.duty <= hi1.duty,
                    t1 <= t2,
            ;
        } else {
            // t2 has moved past the first segment: the duty at t1 is at
            // most hi1's duty, every later segment starts no lower.
            lemma_wf_skip(c);
            assert(tick_seg(c, t2) == tick_seg(c.skip(1), t2));
            lemma_tick_seg_lower_duty(c.skip(1), t2, hi1.duty as int);
            assert(n1 <= hi1.duty * d1) by (nonlinear_arith)
                requires
                    n1 == seg_num(lo1, hi1, t1),
                    d1 == seg_den(lo1, hi1),
                    lo1.duty <= hi1.duty,
                    lo1.temp <= t1 < hi1.temp,
            ;
            assert(lo2.duty * d2 <= n2) by (nonlinear_arith)
                requires
                    n2 == seg_num(lo2, hi2, t2),
                    d2 == seg_den(lo2, hi2),
                    lo2.duty <= hi2.duty,
                    lo2.temp <= t2 < hi2.temp,
            ;
            assert(n1 * d2 <= n2 * d1) by (nonlinear_arith)
                requires
                    n1 <= hi1.duty * d1,
                    lo2.duty * d2 <= n2,
                    hi1.duty <= lo2.duty,
                    d1 > 0,
                    d2 > 0,
                    n1 >= 0,
                    n2 >= 0,
            ;
        }
    } else {
        // Neither temperature lies in the first segment (t2 >= t1): both
        // answers come from the curve without its first point.
        if t1 < c[0].temp {
            lemma_tick_below_first(c, t1);
            lemma_tick_pwm_is_seg(c, t1);
        }
        assert(t1 >= c[1].temp);
        lemma_wf_skip(c);
        lemma_duty_monotone(c.skip(1), t1, t2);
    }
    lemma_seg_num_bounds(lo1, hi1, t1);
    lemma_seg_num_bounds(lo2, hi2, t2);
    assert(2 * (255 * n1) + 100_000 * d1 >= 0 && (2 * (255 * n1) + 100_000 * d1) * (2 * (100_000
        * d2)) <= (2 * (255 * n2) + 100_000 * d2) * (2 * (100_000 * d1))) by (nonlinear_arith)
        requires
            n1 >= 0,
            n2 >= 0,
            d1 > 0,
            d2 > 0,
            n1 * d2 <= n2 * d1,
    ;
    lemma_div_cross_mono(
        2 * (255 * n1) + 100_000 * d1,
        2 * (100_000 * d1),
        2 * (255 * n2) + 100_000 * d2,
        2 * (100_000 * d2),
    );
}

/// In a curve with non-decreasing duties whose first point's duty is at
/// least `floor`, the low end of any selected segment has duty at least
/// `floor`.
proof fn lemma_tick_seg_lower_duty(c: Seq<CurvePoint>, te: int, floor_duty: int)
    requires
        curve_wf(c),
        duties_non_decreasing(c),
        tick_seg(c, te) is Some,
        c.len() > 0,
        floor_duty <= c[0].duty,
    ensures
        floor_duty <= tick_seg(c, te)->Some_0.0.duty,
    decreases c.len(),
{
    if !(c[0].temp <= te < c[1].temp) {
        lemma_wf_skip(c);
        lemma_tick_seg_lower_duty(c.skip(1), te, floor_duty);
    }
}

/// Decides whether `curve` is well formed: strictly ascending
/// temperatures within the machine bound, duties between 0% and 100%.
/// Callers at the unverified rim establish `curve_wf` with this before
/// handing a curve to the monitor.
#[verifier::loop_isolation(false)]
pub fn check_curve(curve: &Vec<CurvePoint>) -> (r: bool)
    ensures
        r == curve_wf(curve@),
{
    let n = curve.len();
    let mut i: usize = 0;
    while i < n
        invariant
            i <= n,
            forall|j: int| 0 <= j < i ==> point_wf(#[trigger] curve@[j]),
            forall|j: int|
                0 <= j && j + 1 < n && j + 1 <= i ==> (#[trigger] curve@[j]).temp < curve@[j
                    + 1].temp,
        decreases n - i,
    {
        let p = curve[i];
        if !(-TEMP_LIMIT <= p.temp && p.temp <= TEMP_LIMIT && 0 <= p.duty && p.duty
            <= DUTY_FULL) {
            return false;
        }
        if i + 1 < n && curve[i + 1].temp <= p.temp {
            return false;
        }
        i = i + 1;
    }
    true
}

/// The duty value for one segment, computed in 64-bit integers.
fn seg_pwm_exec(lo: CurvePoint, hi: CurvePoint, temp: i64) -> (p: u8)
    requires
        point_wf(lo),
        point_wf(hi),
        lo.temp <= temp < hi.temp,
    ensures
        p as int == seg_pwm(lo, hi, temp as int),
{
    proof {
        lemma_seg_num_bounds(lo, hi, temp as int);
        lemma_seg_pwm_range(lo, hi, temp as int);
    }
    let dt: i64 = hi.temp - lo.temp;
    let d1: i64 = hi.temp - temp;
    let d2: i64 = temp - lo.temp;
    assert(lo.duty * d1 <= DUTY_FULL * (2 * TEMP_LIMIT) && hi.duty * d2 <= DUTY_FULL * (2
        * TEMP_LIMIT) && 0 <= lo.duty * d1 && 0 <= hi.duty * d2) by (nonlinear_arith)
        requires
            0 <= lo.duty <= DUTY_FULL,
            0 <= hi.duty <= DUTY_FULL,
            0 <= d1 <= 2 * TEMP_LIMIT,
            0 <= d2 <= 2 * TEMP_LIMIT,
    ;
    let a: i64 = lo.duty * d1;
    let b: i64 = hi.duty * d2;
    let num: i64 = a + b;
    assert(num == seg_num(lo, hi, temp as int));
    assert(num <= DUTY_FULL * (2 * TEMP_LIMIT)) by (nonlinear_arith)
        requires
            num <= DUTY_FULL * seg_den(lo, hi),
            seg_den(lo, hi) <= 2 * TEMP_LIMIT,
            DUTY_FULL > 0,
    ;
    let n255: i64 = 255 * num;
    let den: i64 = 100_000 * dt;
    let nn: u64 = (2 * n255 + den) as u64;
    let dd: u64 = (2 * den) as u64;
    let q: u64 = nn / dd;
    assert(q as int == seg_pwm(lo, hi, temp as int));
    q as u8
}

/// Computes the duty value one control-loop tick would write for the
/// measured temperature `temp`, or `None` when the temperature falls
/// outside every segment of the curve (nothing is written that tick).
pub fn compute_pwm(curve: &Vec<CurvePoint>, temp: i64) -> (r: Option<u8>)
    requires
        curve_wf(curve@),
    ensures
        match r {
            Some(p) => tick_pwm(curve@, temp as int) == Some(p as int),
            None => tick_pwm(curve@, temp as int) is None,
        },
        curve@.len() > 0 && (temp as int) < curve@[0].temp ==> r is None,
        curve@.len() > 0 && (temp as int) >= curve@.last().temp ==> r is None,
{
    let n = curve.len();
    if n < 2 {
        return None;
    }
    let mut i: usize = 0;
    assert(curve@.skip(0) =~= curve@);
    while i < n - 1
        invariant
            curve_wf(curve@),
            n == curve@.len(),
            2 <= n,
            i <= n - 1,
            tick_pwm(curve@, temp as int) == tick_pwm(curve@.skip(i as int), temp as int),
        decreases n - i,
    {
        let lo = curve[i];
        let hi = curve[i + 1];
        if lo.temp <= temp && temp < hi.temp {
            let p = seg_pwm_exec(lo, hi, temp);
            proof {
                assert(curve@.skip(i as int)[0] == lo);
                assert(curve@.skip(i as int)[1] == hi);
                if (temp as int) < curve@[0].temp {
                    lemma_tick_below_first(curve@, temp as int);
                }
                if (temp as int) >= curve@.last().temp {
                    lemma_tick_at_or_above_last(curve@, temp as int);
                }
            }
            return Some(p);
        }
        proof {
            lemma_tick_step(curve@, i as int, temp as int);
        }
        i = i + 1;
    }
    assert(tick_pwm(curve@.skip(i as int), temp as int) is None);
    None
}

} // verus!
