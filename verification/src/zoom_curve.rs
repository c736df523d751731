//! The differential zoom curve: one scroll sample moves the anchor size by at
//! most three percent, damped toward zero as the ratio of natural size to
//! anchor size nears its bounds, and at full speed whenever the gesture
//! brings the ratio back toward one.
//!
//! The curve is specified over the reals; the executable code works on exact
//! integer fractions and is proved to produce the truncation of the real
//! value.

use vstd::prelude::*;
use crate::exact::{
    clip, lemma_product_bound, lemma_quotient_by_one, lemma_quotient_order, lemma_quotient_scale,
    lemma_truncate_quotient, quotient, real_abs, real_max, real_min, sign, to_i32,
    truncate_quotient,
};

verus! {

/// The ratio below which zooming in is brought to a halt: one tenth.
pub open spec fn min_ratio() -> real {
    1real / 10real
}

/// The ratio above which zooming out is brought to a halt: four.
pub open spec fn max_ratio() -> real {
    4real
}

/// The share of the anchor size that an undamped scroll sample adds or
/// removes: three hundredths.
pub open spec fn zoom_rate() -> real {
    3real / 100real
}

/// Damping factors below this value count as zero: one tenth.
pub open spec fn damping_floor() -> real {
    1real / 10real
}

/// The inverted hyperbola that damps the gesture between the bounds `lo` and
/// `hi`: zero at either bound and wherever it would fall below the damping
/// floor, and otherwise one minus the reciprocal of the product of the
/// distances to the two bounds.
pub open spec fn hyper(ratio: real, lo: real, hi: real) -> real {
    let span = (ratio - lo) * (hi - ratio);
    if span == 0real {
        0real
    } else if 1real - 1real / span < damping_floor() {
        0real
    } else {
        1real - 1real / span
    }
}

/// The shaping function: the direction of the gesture, undamped when it
/// pushes the ratio toward one and damped by `hyper` otherwise.
pub open spec fn shape(ratio: real, dratio: real, lo: real, hi: real) -> real {
    let direction = sign(dratio);
    if (ratio - 1real) * dratio >= 0real {
        direction
    } else {
        direction * hyper(ratio, lo, hi)
    }
}

/// The ratio of an image's natural reference dimension to the anchor size.
pub open spec fn ratio_of(natural: int, anchor: int) -> real
    recommends
        anchor != 0,
{
    quotient(natural, anchor)
}

/// The change of the anchor size that one scroll sample asks for.
pub open spec fn zoom_delta(anchor: int, natural: int, raw_delta: int) -> real
    recommends
        anchor != 0,
{
    let ratio = ratio_of(natural, anchor);
    let dratio = quotient(raw_delta, anchor);
    let lo = real_min(ratio, min_ratio());
    let hi = real_max(ratio, max_ratio());
    (anchor as real) * (zoom_rate() * shape(ratio, dratio, lo, hi))
}

/// The anchor size after one scroll sample, before it is truncated: the old
/// size plus the delta, clipped into the integer range, and then held within
/// the ratio bounds relative to the old size.
pub open spec fn zoomed_anchor(anchor: int, natural: int, raw_delta: int) -> real
    recommends
        anchor != 0,
{
    let delta = zoom_delta(anchor, natural, raw_delta);
    let proposed = clip((anchor as real) + delta, (i32::MIN + 1) as real, i32::MAX as real);
    if delta >= 0real {
        real_min(max_ratio() * (anchor as real), proposed)
    } else {
        real_max(min_ratio() * (anchor as real), proposed)
    }
}

/// Ten times the squared anchor size times the product of the distances of
/// the ratio to the fixed bounds.
spec fn band_product(anchor: int, natural: int) -> int {
    (10 * natural - anchor) * (4 * anchor - natural)
}

/// Whether the ratio lies strictly between the fixed bounds.
spec fn in_band(anchor: int, natural: int) -> bool {
    (10 * natural - anchor) * anchor > 0 && (4 * anchor - natural) * anchor > 0
}

/// Whether the gesture is damped by a factor other than zero.
spec fn damped(anchor: int, natural: int) -> bool {
    in_band(anchor, natural) && 9 * band_product(anchor, natural) >= 100 * (anchor * anchor)
}

/// Numerator of the damping factor as an exact fraction.
spec fn damping_num(anchor: int, natural: int) -> int {
    if damped(anchor, natural) {
        band_product(anchor, natural) - 10 * (anchor * anchor)
    } else {
        0
    }
}

/// Denominator of the damping factor as an exact fraction.
spec fn damping_den(anchor: int, natural: int) -> int {
    if damped(anchor, natural) {
        band_product(anchor, natural)
    } else {
        1
    }
}

/// The comparisons of the ratio with the fixed bounds, cleared of the
/// division.
proof fn lemma_ratio_band(anchor: int, natural: int)
    requires
        anchor != 0,
    ensures
        ratio_of(natural, anchor) > min_ratio() <==> (10 * natural - anchor) * anchor > 0,
        ratio_of(natural, anchor) < max_ratio() <==> (4 * anchor - natural) * anchor > 0,
{
    let a: real = anchor as real;
    let p: real = natural as real;
    let r: real = p / a;
    assert(r * a == p && a * a > 0real) by (nonlinear_arith)
        requires
            a != 0real,
            r == p / a,
    ;
    assert((r > 1real / 10real) <==> ((10real * p - a) * a > 0real)) by (nonlinear_arith)
        requires
            r * a == p,
            a * a > 0real,
            a != 0real,
    ;
    assert((r < 4real) <==> ((4real * a - p) * a > 0real)) by (nonlinear_arith)
        requires
            r * a == p,
            a * a > 0real,
            a != 0real,
    ;
    assert((10real * p - a) * a == (((10 * natural - anchor) * anchor) as real)) by (nonlinear_arith)
        requires
            a == anchor as real,
            p == natural as real,
    ;
    assert((4real * a - p) * a == (((4 * anchor - natural) * anchor) as real)) by (nonlinear_arith)
        requires
            a == anchor as real,
            p == natural as real,
    ;
}

/// The damping factor at the effective bounds, as an exact fraction of
/// integers.
proof fn lemma_hyper_fraction(anchor: int, natural: int)
    requires
        anchor != 0,
    ensures
        damping_den(anchor, natural) > 0,
        0 <= damping_num(anchor, natural) < damping_den(anchor, natural),
        hyper(
            ratio_of(natural, anchor),
            real_min(ratio_of(natural, anchor), min_ratio()),
            real_max(ratio_of(natural, anchor), max_ratio()),
        ) == quotient(damping_num(anchor, natural), damping_den(anchor, natural)),
{
    lemma_ratio_band(anchor, natural);
    let a: real = anchor as real;
    let p: real = natural as real;
    let r: real = ratio_of(natural, anchor);
    let lo: real = real_min(r, min_ratio());
    let hi: real = real_max(r, max_ratio());
    let span: real = (r - lo) * (hi - r);
    let n: int = band_product(anchor, natural);
    let sq: int = anchor * anchor;
    if in_band(anchor, natural) {
        assert(lo == 1real / 10real && hi == 4real);
        let nr: real = n as real;
        let sr: real = sq as real;
        assert(r * a == p && sr == a * a && sr > 0real) by (nonlinear_arith)
            requires
                a != 0real,
                r == p / a,
                a == anchor as real,
                sr == (anchor * anchor) as real,
        ;
        assert(nr == (10real * p - a) * (4real * a - p)) by (nonlinear_arith)
            requires
                a == anchor as real,
                p == natural as real,
                nr == ((10 * natural - anchor) * (4 * anchor - natural)) as real,
        ;
        assert(span * (10real * sr) == nr) by (nonlinear_arith)
            requires
                span == (r - 1real / 10real) * (4real - r),
                r * a == p,
                sr == a * a,
                nr == (10real * p - a) * (4real * a - p),
        ;
        assert(span > 0real) by (nonlinear_arith)
            requires
                span == (r - 1real / 10real) * (4real - r),
                r > 1real / 10real,
                r < 4real,
        ;
        assert(nr > 0real) by (nonlinear_arith)
            requires
                span * (10real * sr) == nr,
                span > 0real,
                sr > 0real,
        ;
        let h: real = 1real - 1real / span;
        assert(h == (nr - 10real * sr) / nr) by (nonlinear_arith)
            requires
                h == 1real - 1real / span,
                span * (10real * sr) == nr,
                span > 0real,
                sr > 0real,
                nr > 0real,
        ;
        assert((h < 1real / 10real) <==> (9real * nr < 100real * sr)) by (nonlinear_arith)
            requires
                h == (nr - 10real * sr) / nr,
                nr > 0real,
        ;
        assert((9real * nr < 100real * sr) <==> (9 * n < 100 * sq));
        assert(nr - 10real * sr == (n - 10 * sq) as real);
    } else {
        assert(span == 0real) by (nonlinear_arith)
            requires
                span == (r - lo) * (hi - r),
                r == lo || r == hi,
        ;
    }
    lemma_quotient_by_one(0);
}

/// The sign of an integer: -1, 0 or 1.
spec fn int_sign(x: int) -> int {
    if x > 0 {
        1
    } else if x < 0 {
        -1
    } else {
        0
    }
}

/// Whether the gesture pushes the ratio toward one, or leaves it there.
spec fn toward_fit(anchor: int, natural: int, raw_delta: int) -> bool {
    (natural - anchor) * raw_delta >= 0
}

/// Numerator of the zoom delta as an exact fraction.
spec fn delta_num(anchor: int, natural: int, raw_delta: int) -> int {
    let direction = int_sign(raw_delta) * int_sign(anchor);
    if toward_fit(anchor, natural, raw_delta) {
        3 * anchor * direction
    } else {
        3 * anchor * direction * damping_num(anchor, natural)
    }
}

/// Denominator of the zoom delta as an exact fraction.
spec fn delta_den(anchor: int, natural: int, raw_delta: int) -> int {
    if toward_fit(anchor, natural, raw_delta) {
        100
    } else {
        100 * damping_den(anchor, natural)
    }
}

/// The zoom delta as an exact fraction of integers.
proof fn lemma_delta_fraction(anchor: int, natural: int, raw_delta: int)
    requires
        anchor != 0,
    ensures
        delta_den(anchor, natural, raw_delta) > 0,
        zoom_delta(anchor, natural, raw_delta) == quotient(
            delta_num(anchor, natural, raw_delta),
            delta_den(anchor, natural, raw_delta),
        ),
{
    lemma_hyper_fraction(anchor, natural);
    let a: real = anchor as real;
    let p: real = natural as real;
    let d: real = raw_delta as real;
    let r: real = ratio_of(natural, anchor);
    let dr: real = quotient(raw_delta, anchor);
    let lo: real = real_min(r, min_ratio());
    let hi: real = real_max(r, max_ratio());
    let dir: int = int_sign(raw_delta) * int_sign(anchor);
    let hn: int = damping_num(anchor, natural);
    let hd: int = damping_den(anchor, natural);
    assert(dir == 1 || dir == 0 || dir == -1);
    assert(sign(dr) == dir as real) by (nonlinear_arith)
        requires
            a != 0real,
            dr == d / a,
            a == anchor as real,
            d == raw_delta as real,
            dir == int_sign(raw_delta) * int_sign(anchor),
            sign(dr) == (if dr > 0real { 1real } else if dr < 0real { -1real } else { 0real }),
    ;
    assert(((r - 1real) * dr >= 0real) <==> ((p - a) * d >= 0real)) by (nonlinear_arith)
        requires
            a != 0real,
            r == p / a,
            dr == d / a,
    ;
    assert((p - a) * d == ((natural - anchor) * raw_delta) as real) by (nonlinear_arith)
        requires
            a == anchor as real,
            p == natural as real,
            d == raw_delta as real,
    ;
    let sh: real = shape(r, dr, lo, hi);
    if toward_fit(anchor, natural, raw_delta) {
        assert(sh == dir as real);
        assert(a * ((3real / 100real) * (dir as real)) == ((3 * anchor * dir) as real) / 100real)
            by (nonlinear_arith)
            requires
                a == anchor as real,
                dir == 1 || dir == 0 || dir == -1,
        ;
    } else {
        let hnr: real = hn as real;
        let hdr: real = hd as real;
        assert(sh == (dir as real) * (hnr / hdr));
        assert(a * ((3real / 100real) * ((dir as real) * (hnr / hdr))) == ((3 * anchor * dir
            * hn) as real) / ((100 * hd) as real)) by (nonlinear_arith)
            requires
                a == anchor as real,
                hnr == hn as real,
                hdr == hd as real,
                hd > 0,
                dir == 1 || dir == 0 || dir == -1,
        ;
    }
}

/// The smaller of two integers.
spec fn int_min(x: int, y: int) -> int {
    if x <= y {
        x
    } else {
        y
    }
}

/// The larger of two integers.
spec fn int_max(x: int, y: int) -> int {
    if x >= y {
        x
    } else {
        y
    }
}

/// Denominator of the zoomed anchor size as an exact fraction.
spec fn zoomed_den(anchor: int, natural: int, raw_delta: int) -> int {
    10 * delta_den(anchor, natural, raw_delta)
}

/// Numerator of the zoomed anchor size as an exact fraction.
spec fn zoomed_num(anchor: int, natural: int, raw_delta: int) -> int {
    let dn = delta_num(anchor, natural, raw_delta);
    let dd = delta_den(anchor, natural, raw_delta);
    let scale = 10 * dd;
    let target = 10 * (anchor * dd + dn);
    let proposed = int_min(i32::MAX * scale, int_max((i32::MIN + 1) * scale, target));
    if dn >= 0 {
        int_min(40 * (anchor * dd), proposed)
    } else {
        int_max(anchor * dd, proposed)
    }
}

/// The zoomed anchor size as an exact fraction of integers.
proof fn lemma_zoomed_fraction(anchor: int, natural: int, raw_delta: int)
    requires
        anchor != 0,
    ensures
        zoomed_den(anchor, natural, raw_delta) > 0,
        zoomed_anchor(anchor, natural, raw_delta) == quotient(
            zoomed_num(anchor, natural, raw_delta),
            zoomed_den(anchor, natural, raw_delta),
        ),
{
    lemma_delta_fraction(anchor, natural, raw_delta);
    let dn: int = delta_num(anchor, natural, raw_delta);
    let dd: int = delta_den(anchor, natural, raw_delta);
    let scale: int = 10 * dd;
    let a: real = anchor as real;
    let delta: real = zoom_delta(anchor, natural, raw_delta);
    let target: int = 10 * (anchor * dd + dn);
    let floor_num: int = (i32::MIN + 1) * scale;
    let ceiling_num: int = i32::MAX * scale;
    let raised: int = int_max(floor_num, target);
    let proposed: int = int_min(ceiling_num, raised);

    // Every value that enters the comparison, over the common denominator.
    assert(a + delta == quotient(target, scale)) by (nonlinear_arith)
        requires
            a == anchor as real,
            delta == (dn as real) / (dd as real),
            dd > 0,
            scale == 10 * dd,
            target == 10 * (anchor * dd + dn),
            quotient(target, scale) == (target as real) / (scale as real),
    ;
    assert(((i32::MIN + 1) as real) == quotient(floor_num, scale)) by {
        lemma_quotient_by_one(i32::MIN + 1);
        lemma_quotient_scale(i32::MIN + 1, 1, scale);
    }
    assert((i32::MAX as real) == quotient(ceiling_num, scale)) by {
        lemma_quotient_by_one(i32::MAX as int);
        lemma_quotient_scale(i32::MAX as int, 1, scale);
    }
    assert(max_ratio() * a == quotient(40 * (anchor * dd), scale)) by (nonlinear_arith)
        requires
            a == anchor as real,
            dd > 0,
            scale == 10 * dd,
            max_ratio() == 4real,
            quotient(40 * (anchor * dd), scale) == ((40 * (anchor * dd)) as real) / (scale as real),
    ;
    assert(min_ratio() * a == quotient(anchor * dd, scale)) by (nonlinear_arith)
        requires
            a == anchor as real,
            dd > 0,
            scale == 10 * dd,
            min_ratio() == 1real / 10real,
            quotient(anchor * dd, scale) == ((anchor * dd) as real) / (scale as real),
    ;
    assert(delta >= 0real <==> dn >= 0) by (nonlinear_arith)
        requires
            delta == (dn as real) / (dd as real),
            dd > 0,
    ;
    lemma_quotient_order(floor_num, target, scale);
    lemma_quotient_order(ceiling_num, raised, scale);
    lemma_quotient_order(40 * (anchor * dd), proposed, scale);
    lemma_quotient_order(anchor * dd, proposed, scale);
}

/// The anchor size after one scroll sample of `raw_delta`, for an image whose
/// natural reference dimension is `natural`: the real-valued result of the
/// curve, truncated toward zero. The anchor size must be set: at zero the
/// ratio is undefined.
pub fn next_anchor_size(anchor: i32, natural: i32, raw_delta: i32) -> (next: i32)
    requires
        anchor != 0,
    ensures
        next == to_i32(zoomed_anchor(anchor as int, natural as int, raw_delta as int)),
{
    let a: i128 = anchor as i128;
    let p: i128 = natural as i128;
    let d: i128 = raw_delta as i128;
    let low_gap: i128 = 10 * p - a;
    let high_gap: i128 = 4 * a - p;
    let ghost bound: int = 0x8000_0000;
    proof {
        lemma_product_bound(low_gap as int, high_gap as int, 11 * bound, 5 * bound);
        lemma_product_bound(low_gap as int, a as int, 11 * bound, bound);
        lemma_product_bound(high_gap as int, a as int, 5 * bound, bound);
        lemma_product_bound(a as int, a as int, bound, bound);
        lemma_product_bound(p - a, d as int, 2 * bound, bound);
    }
    let band: i128 = low_gap * high_gap;
    let square: i128 = a * a;
    let is_damped: bool = low_gap * a > 0 && high_gap * a > 0 && 9 * band >= 100 * square;
    let damping_n: i128 = if is_damped {
        band - 10 * square
    } else {
        0
    };
    let damping_d: i128 = if is_damped {
        band
    } else {
        1
    };
    let direction: i128 = sign_of(raw_delta) * sign_of(anchor);
    let toward: bool = (p - a) * d >= 0;
    proof {
        lemma_hyper_fraction(anchor as int, natural as int);
        lemma_product_bound(3 * a, direction as int, 3 * bound, 1);
        lemma_product_bound(3 * a * direction, damping_n as int, 3 * bound, 55 * bound * bound);
    }
    let delta_n: i128 = if toward {
        3 * a * direction
    } else {
        3 * a * direction * damping_n
    };
    let delta_d: i128 = if toward {
        100
    } else {
        100 * damping_d
    };
    proof {
        lemma_product_bound(a as int, delta_d as int, bound, 5500 * bound * bound);
        lemma_zoomed_fraction(anchor as int, natural as int, raw_delta as int);
    }
    let scale: i128 = 10 * delta_d;
    let anchor_scaled: i128 = a * delta_d;
    let target: i128 = 10 * (anchor_scaled + delta_n);
    let floor_n: i128 = (i32::MIN as i128 + 1) * scale;
    let ceiling_n: i128 = (i32::MAX as i128) * scale;
    let raised: i128 = if floor_n >= target {
        floor_n
    } else {
        target
    };
    let proposed: i128 = if ceiling_n <= raised {
        ceiling_n
    } else {
        raised
    };
    let zoomed: i128 = if delta_n >= 0 {
        if 40 * anchor_scaled <= proposed {
            40 * anchor_scaled
        } else {
            proposed
        }
    } else {
        if anchor_scaled >= proposed {
            anchor_scaled
        } else {
            proposed
        }
    };
    truncate_quotient(zoomed, scale)
}

/// The sign of `x`: -1, 0 or 1.
fn sign_of(x: i32) -> (s: i128)
    ensures
        s == int_sign(x as int),
{
    if x > 0 {
        1
    } else if x < 0 {
        -1
    } else {
        0
    }
}

/// The ratio at which the damping factor is largest: the midpoint of the
/// fixed bounds.
pub open spec fn midpoint_ratio() -> real {
    (min_ratio() + max_ratio()) / 2real
}

/// At a ratio of exactly one the shaping function returns the direction of
/// the gesture, whatever the gesture and the bounds are.
pub proof fn lemma_undamped_at_fit(dratio: real, lo: real, hi: real)
    ensures
        shape(1real, dratio, lo, hi) == sign(dratio),
{
    assert((1real - 1real) * dratio == 0real) by (nonlinear_arith);
}

/// A gesture that pushes the ratio toward one, or leaves it at one, is never
/// damped.
pub proof fn lemma_undamped_toward_fit(ratio: real, dratio: real, lo: real, hi: real)
    requires
        (ratio > 1real && dratio >= 0real) || (ratio < 1real && dratio <= 0real) || ratio == 1real,
    ensures
        shape(ratio, dratio, lo, hi) == sign(dratio),
{
    assert((ratio - 1real) * dratio >= 0real) by (nonlinear_arith)
        requires
            (ratio > 1real && dratio >= 0real) || (ratio < 1real && dratio <= 0real) || ratio
                == 1real,
    ;
}

/// For a ratio strictly between the fixed bounds and a gesture that pushes it
/// away from one, the shaping function is the direction scaled by a damping
/// factor of at least zero and less than one, so its magnitude never exceeds
/// that of the direction.
pub proof fn lemma_shape_damped(ratio: real, dratio: real)
    requires
        min_ratio() < ratio < max_ratio(),
        dratio != 0real,
        (ratio - 1real) * dratio < 0real,
    ensures
        real_min(ratio, min_ratio()) == min_ratio(),
        real_max(ratio, max_ratio()) == max_ratio(),
        0real <= hyper(ratio, min_ratio(), max_ratio()) < 1real,
        shape(ratio, dratio, min_ratio(), max_ratio()) == sign(dratio) * hyper(
            ratio,
            min_ratio(),
            max_ratio(),
        ),
        real_abs(shape(ratio, dratio, min_ratio(), max_ratio())) <= real_abs(sign(dratio)),
{
    let span: real = (ratio - min_ratio()) * (max_ratio() - ratio);
    let h: real = hyper(ratio, min_ratio(), max_ratio());
    assert(span > 0real) by (nonlinear_arith)
        requires
            span == (ratio - 1real / 10real) * (4real - ratio),
            1real / 10real < ratio < 4real,
    ;
    assert(1real - 1real / span < 1real) by (nonlinear_arith)
        requires
            span > 0real,
    ;
    assert(1real / 10real >= 0real) by (nonlinear_arith);
    assert(0real <= h < 1real);
    let s: real = sign(dratio);
    assert(real_abs(s * h) <= real_abs(s)) by (nonlinear_arith)
        requires
            0real <= h < 1real,
            s == 1real || s == -1real,
            real_abs(s * h) == (if s * h >= 0real { s * h } else { -(s * h) }),
            real_abs(s) == 1real,
    ;
}

/// Between the fixed bounds the damping factor falls monotonically toward
/// either bound: below the midpoint it does not grow as the ratio shrinks,
/// above the midpoint it does not grow as the ratio rises.
pub proof fn lemma_damping_monotone(nearer: real, farther: real)
    requires
        min_ratio() < nearer < max_ratio(),
        min_ratio() < farther < max_ratio(),
        nearer <= farther <= midpoint_ratio() || midpoint_ratio() <= farther <= nearer,
    ensures
        hyper(nearer, min_ratio(), max_ratio()) <= hyper(farther, min_ratio(), max_ratio()),
{
    let near_span: real = (nearer - min_ratio()) * (max_ratio() - nearer);
    let far_span: real = (farther - min_ratio()) * (max_ratio() - farther);
    assert(midpoint_ratio() == 41real / 20real) by (nonlinear_arith)
        requires
            midpoint_ratio() == (1real / 10real + 4real) / 2real,
    ;
    assert(0real < near_span <= far_span) by (nonlinear_arith)
        requires
            near_span == (nearer - 1real / 10real) * (4real - nearer),
            far_span == (farther - 1real / 10real) * (4real - farther),
            1real / 10real < nearer < 4real,
            1real / 10real < farther < 4real,
            nearer <= farther <= 41real / 20real || 41real / 20real <= farther <= nearer,
    ;
    assert(1real - 1real / near_span <= 1real - 1real / far_span) by (nonlinear_arith)
        requires
            0real < near_span <= far_span,
    ;
    assert(1real / 10real >= 0real) by (nonlinear_arith);
}

/// The damping factor is exactly zero at the fixed bounds and in a margin
/// just inside them: wherever the product of the distances to the two bounds
/// is below ten ninths.
pub proof fn lemma_damping_vanishes(ratio: real)
    requires
        min_ratio() <= ratio <= max_ratio(),
        (ratio - min_ratio()) * (max_ratio() - ratio) < 10real / 9real,
    ensures
        hyper(ratio, min_ratio(), max_ratio()) == 0real,
{
    let span: real = (ratio - min_ratio()) * (max_ratio() - ratio);
    if span != 0real {
        assert(span > 0real) by (nonlinear_arith)
            requires
                span == (ratio - 1real / 10real) * (4real - ratio),
                1real / 10real <= ratio <= 4real,
                span != 0real,
        ;
        assert(1real - 1real / span < 1real / 10real) by (nonlinear_arith)
            requires
                0real < span < 10real / 9real,
        ;
    }
}

/// Only the sign of a scroll sample enters the curve: two samples of one
/// sign move the anchor alike, whatever their magnitudes.
pub proof fn lemma_sign_decides(anchor: int, natural: int, first: int, second: int)
    requires
        anchor != 0,
        (first > 0 && second > 0) || (first < 0 && second < 0) || (first == 0 && second == 0),
    ensures
        zoom_delta(anchor, natural, first) == zoom_delta(anchor, natural, second),
        zoomed_anchor(anchor, natural, first) == zoomed_anchor(anchor, natural, second),
{
    lemma_delta_fraction(anchor, natural, first);
    lemma_delta_fraction(anchor, natural, second);
    let gap: int = natural - anchor;
    assert((gap * first >= 0) == (gap * second >= 0)) by (nonlinear_arith)
        requires
            (first > 0 && second > 0) || (first < 0 && second < 0) || (first == 0 && second == 0),
    ;
}

/// One scroll sample keeps a positive anchor size, before truncation, between
/// a tenth of and four times its previous value.
pub proof fn lemma_zoomed_anchor_bounded(anchor: i32, natural: i32, raw_delta: i32)
    requires
        anchor > 0,
    ensures
        min_ratio() * (anchor as real) <= zoomed_anchor(
            anchor as int,
            natural as int,
            raw_delta as int,
        ) <= max_ratio() * (anchor as real),
{
    let a: real = anchor as real;
    let delta: real = zoom_delta(anchor as int, natural as int, raw_delta as int);
    let floor: real = (i32::MIN + 1) as real;
    let ceiling: real = i32::MAX as real;
    let proposed: real = clip(a + delta, floor, ceiling);
    let tenth: real = min_ratio() * a;
    let fourfold: real = max_ratio() * a;
    assert(tenth <= a <= fourfold) by (nonlinear_arith)
        requires
            a > 0real,
            tenth == (1real / 10real) * a,
            fourfold == 4real * a,
    ;
    assert(floor < 0real < a <= ceiling);
    if delta >= 0real {
        assert(proposed >= a);
    } else {
        assert(proposed <= a);
    }
}

/// The one-step bound: one scroll sample takes a positive anchor size to a
/// new anchor size of at most four times and, from an anchor size of two on,
/// at least a tenth of the old one, so the zoom of an image, its anchor size
/// over its natural size, leaves the interval from `min_ratio()` to
/// `max_ratio()` times its previous value in no single step. An anchor size
/// of one stays or, when the sample shrinks it, truncates to zero.
pub proof fn lemma_one_step_bound(anchor: i32, natural: i32, raw_delta: i32)
    requires
        anchor >= 1,
    ensures
        ({
            let next = to_i32(zoomed_anchor(anchor as int, natural as int, raw_delta as int));
            &&& 0 <= next <= 4 * anchor
            &&& anchor >= 2 ==> anchor <= 10 * next
            &&& anchor == 1 ==> next == 1 || (next == 0 && zoom_delta(
                anchor as int,
                natural as int,
                raw_delta as int,
            ) < 0real)
            &&& anchor >= 2 && natural > 0 ==> min_ratio() * quotient(
                anchor as int,
                natural as int,
            ) <= quotient(next, natural as int) <= max_ratio() * quotient(
                anchor as int,
                natural as int,
            )
        }),
{
    let a: int = anchor as int;
    let p: int = natural as int;
    let d: int = raw_delta as int;
    lemma_hyper_fraction(a, p);
    lemma_delta_fraction(a, p, d);
    lemma_zoomed_fraction(a, p, d);
    let hn: int = damping_num(a, p);
    let hd: int = damping_den(a, p);
    let dir: int = int_sign(d) * int_sign(a);
    let dn: int = delta_num(a, p, d);
    let dd: int = delta_den(a, p, d);
    let zn: int = zoomed_num(a, p, d);
    let zd: int = zoomed_den(a, p, d);
    let add: int = a * dd;
    assert(dir == 1 || dir == 0 || dir == -1);
    assert(-3 * add <= 100 * dn <= 3 * add) by (nonlinear_arith)
        requires
            a >= 1,
            dir == 1 || dir == 0 || dir == -1,
            0 <= hn < hd,
            add == a * dd,
            (dn == 3 * a * dir && dd == 100) || (dn == 3 * a * dir * hn && dd == 100 * hd),
    ;
    assert(add > 0 && (i32::MAX * (10 * dd)) >= 10 * add) by (nonlinear_arith)
        requires
            1 <= a <= i32::MAX,
            dd > 0,
            add == a * dd,
    ;
    assert(((i32::MIN + 1) * (10 * dd)) < 0) by (nonlinear_arith)
        requires
            dd > 0,
    ;
    assert(100 * zn >= 970 * add && zn <= 40 * add && zn <= i32::MAX * zd);
    assert(dn >= 0 ==> zn >= 10 * add);
    assert(dn < 0 ==> zn < 10 * add);
    lemma_truncate_quotient(zn, zd);
    let next: int = zn / zd;
    assert(0 <= next && next <= 4 * a && next <= i32::MAX && (a >= 2 ==> 10 * next >= a) && (dn
        >= 0 ==> next >= a) && (dn < 0 ==> next < a)) by (nonlinear_arith)
        requires
            next == zn / zd,
            zd == 10 * dd,
            dd > 0,
            a >= 1,
            add == a * dd,
            100 * zn >= 970 * add,
            zn <= 40 * add,
            zn <= i32::MAX * zd,
            dn >= 0 ==> zn >= 10 * add,
            dn < 0 ==> zn < 10 * add,
    ;
    assert(next == to_i32(zoomed_anchor(a, p, d)));
    assert(zoom_delta(a, p, d) < 0real <==> dn < 0) by (nonlinear_arith)
        requires
            zoom_delta(a, p, d) == (dn as real) / (dd as real),
            dd > 0,
    ;
    if a == 1 {
        assert(next == 1 || next == 0) by (nonlinear_arith)
            requires
                next == zn / zd,
                zd == 10 * dd,
                dd > 0,
                add == dd,
                100 * zn >= 970 * add,
                zn <= 40 * add,
                100 * dn <= 3 * add,
                zn <= 10 * (add + dn) || zn <= add,
        ;
    }
    if anchor >= 2 && natural > 0 {
        let pr: real = p as real;
        let ar: real = a as real;
        let nr: real = next as real;
        assert((1real / 10real) * (ar / pr) <= nr / pr <= 4real * (ar / pr)) by (nonlinear_arith)
            requires
                pr > 0real,
                ar <= 10real * nr,
                nr <= 4real * ar,
        ;
    }
}

} // verus!
