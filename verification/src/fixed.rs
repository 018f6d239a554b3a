//! Saturating fixed-point scalars.
//!
//! A quantity is stored as a raw `i64` that represents the real number
//! `raw / ONE` (20 fractional bits). Every operation truncates toward zero
//! and saturates into `[-LIM, LIM]`, so all operations are total and the
//! solvers never overflow or divide by zero. Each executable operation has a
//! spec-level twin (`s_*`) that pins its result exactly.

use vstd::arithmetic::div_mod::lemma_div_is_ordered;
use vstd::arithmetic::mul::lemma_mul_inequality;
use vstd::arithmetic::mul::lemma_mul_nonnegative;
use vstd::arithmetic::div_mod::lemma_div_of0;
use vstd::arithmetic::div_mod::lemma_div_multiples_vanish;
use vstd::prelude::*;

verus! {

/// Scale factor: raw value `r` stands for the real number `r / ONE` (2^20).
pub const ONE: i64 = 1048576;

/// Saturation bound on every raw value (2^59).
pub const LIM: i64 = 576460752303423488;

/// One half (0.5) in raw form.
pub const HALF: i64 = 524288;

/// One quarter (0.25) in raw form.
pub const QUARTER: i64 = 262144;

/// A raw value the fixed-point operations accept and produce.
pub open spec fn fits(x: int) -> bool {
    -(LIM as int) <= x <= LIM as int
}

/// Saturate an unbounded intermediate result into the representable range.
pub open spec fn clip(x: int) -> int {
    if x > LIM as int {
        LIM as int
    } else if x < -(LIM as int) {
        -(LIM as int)
    } else {
        x
    }
}

/// Division truncating toward zero, the rounding used by every operation here.
pub open spec fn tdiv(n: int, d: int) -> int
    recommends
        d > 0,
{
    if n >= 0 {
        n / d
    } else {
        -((-n) / d)
    }
}

pub open spec fn s_add(a: i64, b: i64) -> i64 {
    clip(a + b) as i64
}

pub open spec fn s_sub(a: i64, b: i64) -> i64 {
    clip(a - b) as i64
}

pub open spec fn s_neg(a: i64) -> i64 {
    clip(-a) as i64
}

/// `a * b / d` with a single truncation at the end.
pub open spec fn s_muldiv(a: i64, b: i64, d: i64) -> i64
    recommends
        d > 0,
{
    clip(tdiv(a * b, d as int)) as i64
}

/// Fixed-point product: `(a * b) / ONE`, truncated.
pub open spec fn s_mul(a: i64, b: i64) -> i64 {
    s_muldiv(a, b, ONE)
}

/// Guarded fixed-point quotient: `0` when the divisor is zero.
pub open spec fn s_div(a: i64, b: i64) -> i64 {
    if b == 0 {
        0
    } else if b > 0 {
        s_muldiv(a, ONE, b)
    } else {
        s_muldiv(s_neg(a), ONE, s_neg(b))
    }
}

pub fn fx_add(a: i64, b: i64) -> (r: i64)
    requires
        fits(a as int),
        fits(b as int),
    ensures
        r == s_add(a, b),
        fits(r as int),
{
    let s = a + b;
    if s > LIM {
        LIM
    } else if s < -LIM {
        -LIM
    } else {
        s
    }
}

pub fn fx_sub(a: i64, b: i64) -> (r: i64)
    requires
        fits(a as int),
        fits(b as int),
    ensures
        r == s_sub(a, b),
        fits(r as int),
{
    let s = a - b;
    if s > LIM {
        LIM
    } else if s < -LIM {
        -LIM
    } else {
        s
    }
}

pub fn fx_neg(a: i64) -> (r: i64)
    requires
        fits(a as int),
    ensures
        r == s_neg(a),
        fits(r as int),
{
    -a
}

/// `a * b / d` computed on unsigned magnitudes so the truncation direction
/// (toward zero) is explicit; the 128-bit intermediate never overflows.
pub fn fx_muldiv(a: i64, b: i64, d: i64) -> (r: i64)
    requires
        fits(a as int),
        fits(b as int),
        0 < d,
    ensures
        r == s_muldiv(a, b, d),
        fits(r as int),
{
    let ma: u64 = if a >= 0 {
        a as u64
    } else {
        (-a) as u64
    };
    let mb: u64 = if b >= 0 {
        b as u64
    } else {
        (-b) as u64
    };
    proof {
        assert((ma as int) * (mb as int) <= (LIM as int) * (LIM as int)) by (nonlinear_arith)
            requires
                0 <= ma as int <= LIM as int,
                0 <= mb as int <= LIM as int,
        ;
    }
    let prod: u128 = (ma as u128) * (mb as u128);
    let q: u128 = prod / (d as u128);
    proof {
        lemma_div_is_ordered(prod as int, (LIM as int) * (LIM as int), d as int);
        assert((a as int) * (b as int) == if (a >= 0) == (b >= 0) {
            (ma as int) * (mb as int)
        } else {
            -((ma as int) * (mb as int))
        }) by (nonlinear_arith)
            requires
                ma as int == if a >= 0 { a as int } else { -(a as int) },
                mb as int == if b >= 0 { b as int } else { -(b as int) },
        ;
    }
    let mag: i64 = if q >= (LIM as u128) {
        LIM
    } else {
        q as i64
    };
    if (a >= 0) == (b >= 0) {
        mag
    } else {
        -mag
    }
}

pub fn fx_mul(a: i64, b: i64) -> (r: i64)
    requires
        fits(a as int),
        fits(b as int),
    ensures
        r == s_mul(a, b),
        fits(r as int),
{
    fx_muldiv(a, b, ONE)
}

pub fn fx_div(a: i64, b: i64) -> (r: i64)
    requires
        fits(a as int),
        fits(b as int),
    ensures
        r == s_div(a, b),
        fits(r as int),
{
    if b == 0 {
        0
    } else if b > 0 {
        fx_muldiv(a, ONE, b)
    } else {
        fx_muldiv(-a, ONE, -b)
    }
}

/// Every element of a stored field is a representable raw value.
pub open spec fn all_fits(s: Seq<i64>) -> bool {
    forall|k: int| 0 <= k < s.len() ==> fits(#[trigger] s[k] as int)
}

/// Every element lies in the unit interval `[0, ONE]`.
pub open spec fn all_in_unit(s: Seq<i64>) -> bool {
    forall|k: int| 0 <= k < s.len() ==> 0 <= #[trigger] s[k] <= ONE
}

/// A blend weight clamped into `[0, ONE]`.
pub open spec fn s_clamp01(t: i64) -> i64 {
    if t < 0 {
        0
    } else if t > ONE {
        ONE
    } else {
        t
    }
}

pub fn fx_clamp01(t: i64) -> (r: i64)
    ensures
        r == s_clamp01(t),
        0 <= r <= ONE,
{
    if t < 0 {
        0
    } else if t > ONE {
        ONE
    } else {
        t
    }
}

pub open spec fn s_max0(t: i64) -> i64 {
    if t < 0 {
        0
    } else {
        t
    }
}

pub fn fx_max0(t: i64) -> (r: i64)
    ensures
        r == s_max0(t),
{
    if t < 0 {
        0
    } else {
        t
    }
}

/// Bilinear blend of four samples with fractional offsets `tx`, `ty`; the
/// four weights sum to `ONE * ONE` exactly, and the single final truncation
/// keeps the result between the extremes of the samples.
pub open spec fn s_bilerp(a: i64, b: i64, c: i64, d: i64, tx: i64, ty: i64) -> i64
    recommends
        0 <= tx <= ONE,
        0 <= ty <= ONE,
{
    clip(
        tdiv(
            (ONE - tx) * (ONE - ty) * a + tx * (ONE - ty) * b + tx * ty * c + (ONE - tx) * ty * d,
            (ONE as int) * (ONE as int),
        ),
    ) as i64
}

pub fn fx_bilerp(a: i64, b: i64, c: i64, d: i64, tx: i64, ty: i64) -> (r: i64)
    requires
        fits(a as int),
        fits(b as int),
        fits(c as int),
        fits(d as int),
        0 <= tx <= ONE,
        0 <= ty <= ONE,
    ensures
        r == s_bilerp(a, b, c, d, tx, ty),
        fits(r as int),
{
    let sx: i64 = ONE - tx;
    let sy: i64 = ONE - ty;
    proof {
        assert(0 <= sx * sy <= ONE * ONE && 0 <= tx * sy <= ONE * ONE && 0 <= tx * ty <= ONE
            * ONE && 0 <= sx * ty <= ONE * ONE) by (nonlinear_arith)
            requires
                0 <= sx <= ONE,
                0 <= sy <= ONE,
                0 <= tx <= ONE,
                0 <= ty <= ONE,
        ;
    }
    let w00: i64 = sx * sy;
    let w10: i64 = tx * sy;
    let w11: i64 = tx * ty;
    let w01: i64 = sx * ty;
    proof {
        lemma_weighted_term_bound(w00, a);
        lemma_weighted_term_bound(w10, b);
        lemma_weighted_term_bound(w11, c);
        lemma_weighted_term_bound(w01, d);
    }
    let num: i128 = (w00 as i128) * (a as i128) + (w10 as i128) * (b as i128) + (w11 as i128) * (
    c as i128) + (w01 as i128) * (d as i128);
    let den: u128 = (ONE as u128) * (ONE as u128);
    if num >= 0 {
        let uq: u128 = (num as u128) / den;
        if uq >= LIM as u128 {
            LIM
        } else {
            uq as i64
        }
    } else {
        let uq: u128 = ((-num) as u128) / den;
        if uq >= LIM as u128 {
            -LIM
        } else {
            -(uq as i64)
        }
    }
}

/// One weighted term of the bilinear blend stays within 128-bit range.
proof fn lemma_weighted_term_bound(w: i64, v: i64)
    requires
        0 <= w <= ONE * ONE,
        fits(v as int),
    ensures
        -(ONE * ONE * (LIM as int)) <= (w as int) * (v as int) <= ONE * ONE * (LIM as int),
{
    assert(-(ONE * ONE * (LIM as int)) <= (w as int) * (v as int) <= ONE * ONE * (
    LIM as int)) by (nonlinear_arith)
        requires
            0 <= w as int <= ONE * ONE,
            -(LIM as int) <= v as int <= LIM as int,
    ;
}

/// A bilinear blend of samples that all lie in `[0, m]` lies in `[0, m]`.
pub proof fn lemma_bilerp_in_range(a: i64, b: i64, c: i64, d: i64, tx: i64, ty: i64, m: i64)
    requires
        0 <= a <= m,
        0 <= b <= m,
        0 <= c <= m,
        0 <= d <= m,
        0 <= tx <= ONE,
        0 <= ty <= ONE,
        fits(m as int),
    ensures
        0 <= s_bilerp(a, b, c, d, tx, ty) <= m,
{
    let num = (ONE - tx) * (ONE - ty) * a + tx * (ONE - ty) * b + tx * ty * c + (ONE - tx) * ty
        * d;
    let w00 = (ONE - tx) * (ONE - ty);
    let w10 = tx * (ONE - ty);
    let w11 = tx * ty;
    let w01 = (ONE - tx) * ty;
    lemma_mul_nonnegative(ONE - tx, ONE - ty);
    lemma_mul_nonnegative(tx as int, ONE - ty);
    lemma_mul_nonnegative(tx as int, ty as int);
    lemma_mul_nonnegative(ONE - tx, ty as int);
    lemma_mul_nonnegative(w00, a as int);
    lemma_mul_nonnegative(w10, b as int);
    lemma_mul_nonnegative(w11, c as int);
    lemma_mul_nonnegative(w01, d as int);
    lemma_mul_inequality(a as int, m as int, w00);
    lemma_mul_inequality(b as int, m as int, w10);
    lemma_mul_inequality(c as int, m as int, w11);
    lemma_mul_inequality(d as int, m as int, w01);
    assert(w00 * a == a * w00 && w10 * b == b * w10 && w11 * c == c * w11 && w01 * d == d
        * w01) by (nonlinear_arith);
    assert(w00 + w10 + w11 + w01 == ONE * ONE) by (nonlinear_arith)
        requires
            w00 == (ONE - tx) * (ONE - ty),
            w10 == tx * (ONE - ty),
            w11 == tx * ty,
            w01 == (ONE - tx) * ty,
    ;
    assert(m * w00 + m * w10 + m * w11 + m * w01 == m * (ONE * ONE)) by (nonlinear_arith)
        requires
            w00 + w10 + w11 + w01 == ONE * ONE,
    ;
    lemma_tdiv_bound(num, m as int, ONE * ONE);
    lemma_div_is_ordered(0, num, ONE * ONE);
}

/// Integer square root: the greatest `r` with `r * r <= n`.
pub fn isqrt_u64(n: u64) -> (r: u64)
    ensures
        (r as int) * (r as int) <= n as int,
        (n as int) < (r as int + 1) * (r as int + 1),
{
    let mut lo: u64 = 0;
    let mut hi: u64 = 4294967296;
    proof {
        assert((n as int) < (hi as int) * (hi as int)) by (nonlinear_arith)
            requires
                hi == 4294967296u64,
                n <= 0xffff_ffff_ffff_ffffu64,
        ;
    }
    while lo + 1 < hi
        invariant
            lo < hi,
            hi <= 4294967296,
            (lo as int) * (lo as int) <= n as int,
            (n as int) < (hi as int) * (hi as int),
        decreases hi - lo,
    {
        let mid: u64 = lo + (hi - lo) / 2;
        proof {
            assert((mid as int) * (mid as int) < 0x10000000000000000) by (nonlinear_arith)
                requires
                    mid < 4294967296u64,
            ;
        }
        if mid * mid <= n {
            lo = mid;
        } else {
            hi = mid;
        }
    }
    lo
}

/// A fixed-point square is never negative.
pub proof fn lemma_square_nonneg(a: i64)
    ensures
        0 <= s_mul(a, a),
{
    assert(0 <= (a as int) * (a as int)) by (nonlinear_arith);
    lemma_tdiv_is_ordered(0, (a as int) * (a as int), ONE as int);
    lemma_div_of0(ONE as int);
}

/// `r` is the integer square root of `n`.
pub open spec fn is_isqrt(r: int, n: int) -> bool {
    0 <= r && r * r <= n < (r + 1) * (r + 1)
}

/// The integer square root, as a spec value.
pub open spec fn s_isqrt(n: int) -> int {
    choose|r: int| is_isqrt(r, n)
}

/// Every non-negative integer has an integer square root, so `s_isqrt`
/// denotes it.
pub proof fn lemma_isqrt_exists(n: int)
    requires
        0 <= n,
    ensures
        is_isqrt(s_isqrt(n), n),
    decreases n,
{
    if n == 0 {
        assert(is_isqrt(0, 0)) by (nonlinear_arith);
    } else {
        lemma_isqrt_exists(n - 1);
        let r = s_isqrt(n - 1);
        if n < (r + 1) * (r + 1) {
            assert(is_isqrt(r, n));
        } else {
            assert(is_isqrt(r + 1, n)) by (nonlinear_arith)
                requires
                    is_isqrt(r, n - 1),
                    (r + 1) * (r + 1) <= n,
            ;
        }
    }
}

/// Integer square roots are unique.
pub proof fn lemma_isqrt_unique(r1: int, r2: int, n: int)
    requires
        is_isqrt(r1, n),
        is_isqrt(r2, n),
    ensures
        r1 == r2,
{
    assert(r1 < r2 ==> (r1 + 1) * (r1 + 1) <= r2 * r2) by (nonlinear_arith)
        requires
            0 <= r1,
            0 <= r2,
    ;
    assert(r2 < r1 ==> (r2 + 1) * (r2 + 1) <= r1 * r1) by (nonlinear_arith)
        requires
            0 <= r1,
            0 <= r2,
    ;
}

/// The executable square root realizes the spec value.
pub fn fx_isqrt(n: u64) -> (r: u64)
    ensures
        r as int == s_isqrt(n as int),
        is_isqrt(r as int, n as int),
{
    let r = isqrt_u64(n);
    proof {
        let rs = s_isqrt(n as int);
        assert(is_isqrt(r as int, n as int));
        assert(is_isqrt(rs, n as int)) by {
            assert(exists|q: int| is_isqrt(q, n as int)) by {
                assert(is_isqrt(r as int, n as int));
            }
        }
        lemma_isqrt_unique(r as int, rs, n as int);
    }
    r
}

/// Truncating division is odd in its dividend.
pub proof fn lemma_tdiv_neg(n: int, d: int)
    requires
        d > 0,
    ensures
        tdiv(-n, d) == -tdiv(n, d),
{
}

/// Saturation is odd.
pub proof fn lemma_clip_neg(x: int)
    ensures
        clip(-x) == -clip(x),
{
}

/// The combined multiply-divide is odd in its first factor.
pub proof fn lemma_muldiv_neg(a: i64, b: i64, d: i64)
    requires
        fits(a as int),
        d > 0,
    ensures
        s_muldiv(s_neg(a), b, d) == s_neg(s_muldiv(a, b, d)),
{
    assert((s_neg(a) as int) * (b as int) == -((a as int) * (b as int))) by (nonlinear_arith)
        requires
            s_neg(a) as int == -(a as int),
    ;
    lemma_tdiv_neg((a as int) * (b as int), d as int);
    lemma_clip_neg(tdiv((a as int) * (b as int), d as int));
}

/// The fixed product is odd in its second factor.
pub proof fn lemma_mul_neg_right(a: i64, b: i64)
    requires
        fits(b as int),
    ensures
        s_mul(a, s_neg(b)) == s_neg(s_mul(a, b)),
{
    assert((a as int) * (s_neg(b) as int) == -((a as int) * (b as int))) by (nonlinear_arith)
        requires
            s_neg(b) as int == -(b as int),
    ;
    lemma_tdiv_neg((a as int) * (b as int), ONE as int);
    lemma_clip_neg(tdiv((a as int) * (b as int), ONE as int));
}

/// The guarded quotient is odd in its dividend.
pub proof fn lemma_div_neg(a: i64, b: i64)
    requires
        fits(a as int),
    ensures
        s_div(s_neg(a), b) == s_neg(s_div(a, b)),
{
    if b > 0 {
        lemma_muldiv_neg(a, ONE, b);
    } else if b < 0 {
        lemma_muldiv_neg(a, ONE, s_neg(b));
    }
}

/// Division by a positive divisor preserves ordering of the dividends.
pub proof fn lemma_tdiv_is_ordered(x: int, y: int, d: int)
    requires
        x <= y,
        d > 0,
    ensures
        tdiv(x, d) <= tdiv(y, d),
{
    if x >= 0 {
        lemma_div_is_ordered(x, y, d);
    } else if y >= 0 {
        lemma_div_is_ordered(0, y, d);
        lemma_div_is_ordered(-y, -x, d);
        lemma_div_is_ordered(0, -x, d);
    } else {
        lemma_div_is_ordered(-y, -x, d);
    }
}

/// A dividend bounded by a multiple of the divisor bounds the quotient.
pub proof fn lemma_tdiv_bound(x: int, m: int, d: int)
    requires
        x <= m * d,
        d > 0,
    ensures
        tdiv(x, d) <= m,
{
    lemma_tdiv_is_ordered(x, m * d, d);
    if m * d >= 0 {
        lemma_div_multiples_vanish(m, d);
        assert(m * d == d * m) by (nonlinear_arith);
    } else {
        lemma_div_multiples_vanish(-m, d);
        assert(-(m * d) == d * (-m)) by (nonlinear_arith);
    }
}

} // verus!
