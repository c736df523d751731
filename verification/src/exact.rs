//! Real-valued helpers shared by the zoom curve and the render target size:
//! sign, clipping, and truncation of an exact quotient into an `i32`.

use vstd::prelude::*;

verus! {

/// The sign of a real number: -1, 0 or 1.
pub open spec fn sign(x: real) -> real {
    if x > 0real {
        1real
    } else if x < 0real {
        -1real
    } else {
        0real
    }
}

/// The magnitude of a real number.
pub open spec fn real_abs(x: real) -> real {
    if x >= 0real {
        x
    } else {
        -x
    }
}

/// The smaller of two reals.
pub open spec fn real_min(x: real, y: real) -> real {
    if x <= y {
        x
    } else {
        y
    }
}

/// The larger of two reals.
pub open spec fn real_max(x: real, y: real) -> real {
    if x >= y {
        x
    } else {
        y
    }
}

/// `x` forced into the closed interval from `lo` to `hi`.
pub open spec fn clip(x: real, lo: real, hi: real) -> real {
    real_min(hi, real_max(lo, x))
}

/// The real quotient of two integers.
pub open spec fn quotient(num: int, den: int) -> real {
    (num as real) / (den as real)
}

/// `x` with its fractional part dropped (rounding toward zero).
pub open spec fn truncate(x: real) -> int {
    if x >= 0real {
        x.floor()
    } else {
        -((-x).floor())
    }
}

/// An integer forced into the range of `i32`.
pub open spec fn saturate_i32(n: int) -> int {
    if n < i32::MIN {
        i32::MIN as int
    } else if n > i32::MAX {
        i32::MAX as int
    } else {
        n
    }
}

/// The `i32` nearest to `x` among those not farther from zero than `x`,
/// or the nearest end of the `i32` range when `x` lies outside it.
pub open spec fn to_i32(x: real) -> int {
    saturate_i32(truncate(x))
}

/// A product is bounded by the product of the bounds of its factors.
pub proof fn lemma_product_bound(x: int, y: int, bx: int, by: int)
    requires
        -bx <= x <= bx,
        -by <= y <= by,
    ensures
        -(bx * by) <= x * y <= bx * by,
{
    assert(-(bx * by) <= x * y <= bx * by) by (nonlinear_arith)
        requires
            -bx <= x <= bx,
            -by <= y <= by,
    ;
}

/// A quotient with denominator one is its numerator.
pub proof fn lemma_quotient_by_one(num: int)
    ensures
        quotient(num, 1) == num as real,
{
    let x: real = num as real;
    assert(x / 1real == x) by (nonlinear_arith);
}

/// Quotients over one positive denominator are ordered as their numerators.
pub proof fn lemma_quotient_order(x: int, y: int, den: int)
    requires
        den > 0,
    ensures
        quotient(x, den) <= quotient(y, den) <==> x <= y,
        quotient(x, den) == quotient(y, den) <==> x == y,
{
    let xr: real = x as real;
    let yr: real = y as real;
    let dr: real = den as real;
    assert((xr / dr <= yr / dr <==> xr <= yr) && (xr / dr == yr / dr <==> xr == yr))
        by (nonlinear_arith)
        requires
            dr > 0real,
    ;
}

/// Multiplying numerator and denominator by one positive factor leaves a
/// quotient unchanged.
pub proof fn lemma_quotient_scale(num: int, den: int, factor: int)
    requires
        den > 0,
        factor > 0,
    ensures
        quotient(num * factor, den * factor) == quotient(num, den),
{
    let nr: real = num as real;
    let dr: real = den as real;
    let fr: real = factor as real;
    assert((num * factor) as real == nr * fr && (den * factor) as real == dr * fr)
        by (nonlinear_arith)
        requires
            nr == num as real,
            dr == den as real,
            fr == factor as real,
    ;
    assert((nr * fr) / (dr * fr) == nr / dr) by (nonlinear_arith)
        requires
            dr > 0real,
            fr > 0real,
    ;
}

/// The floor of a quotient with a positive denominator is the Euclidean
/// integer quotient.
pub proof fn lemma_floor_quotient(num: int, den: int)
    requires
        den > 0,
    ensures
        quotient(num, den).floor() == num / den,
{
    let q: int = num / den;
    let r: int = num % den;
    assert(num == q * den + r && 0 <= r < den) by (nonlinear_arith)
        requires
            den > 0,
            q == num / den,
            r == num % den,
    ;
    let x: real = quotient(num, den);
    assert((q as real) <= x && x < ((q + 1) as real)) by (nonlinear_arith)
        requires
            den > 0,
            num == q * den + r,
            0 <= r < den,
            x == (num as real) / (den as real),
    ;
}

/// Truncating a quotient with a positive denominator divides the
/// magnitudes and restores the sign.
pub proof fn lemma_truncate_quotient(num: int, den: int)
    requires
        den > 0,
    ensures
        num >= 0 ==> truncate(quotient(num, den)) == num / den,
        num < 0 ==> truncate(quotient(num, den)) == -((-num) / den),
{
    let x: real = quotient(num, den);
    if num >= 0 {
        assert(x >= 0real) by (nonlinear_arith)
            requires
                den > 0,
                num >= 0,
                x == (num as real) / (den as real),
        ;
        lemma_floor_quotient(num, den);
    } else {
        assert(x < 0real && -x == ((-num) as real) / (den as real)) by (nonlinear_arith)
            requires
                den > 0,
                num < 0,
                x == (num as real) / (den as real),
        ;
        lemma_floor_quotient(-num, den);
    }
}

/// Truncates the exact quotient `num / den` into an `i32`, saturating at the
/// ends of the range.
pub fn truncate_quotient(num: i128, den: i128) -> (r: i32)
    requires
        den > 0,
    ensures
        r == to_i32(quotient(num as int, den as int)),
{
    proof {
        lemma_truncate_quotient(num as int, den as int);
    }
    let q: i128 = num / den;
    if q < -2147483648i128 {
        i32::MIN
    } else if q > 2147483647i128 {
        i32::MAX
    } else {
        q as i32
    }
}

} // verus!
