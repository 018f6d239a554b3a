//! Particle-based Smoothed Particle Hydrodynamics (SPH) solver.
//!
//! A fixed-capacity set of particles lives in parallel arrays (position,
//! velocity, force accumulator, density, pressure, mass). Each `update`
//! recomputes density and pressure from an all-pairs kernel scan, then the
//! pairwise pressure and viscosity forces plus gravity, then integrates with
//! the configured fixed time step and reflects particles off the domain
//! walls, and finally rebuilds the renderable instance buffer.
//!
//! All solver parameters — kernel radius, stiffness, rest density,
//! viscosity, gravity and the integration step — live in an explicit
//! [`SphConfig`] value instead of module constants. The frame delta passed
//! to `update` is a cadence signal only: integration always advances by the
//! configured `cfg.dt`, so the physics cannot drift with the frame rate.

use crate::fixed::{
    all_fits, clip, fits, fx_add, fx_div, fx_isqrt, fx_mul, fx_muldiv, fx_sub, is_isqrt,
    lemma_clip_neg, lemma_div_neg, lemma_isqrt_exists, lemma_mul_neg_right, lemma_muldiv_neg,
    lemma_square_nonneg, lemma_tdiv_bound, lemma_tdiv_is_ordered, lemma_tdiv_neg, s_add, s_div,
    s_isqrt, s_mul, s_muldiv, s_neg, s_sub, HALF, LIM, ONE,
};
use crate::instance::{Instance, Vec2};
use vstd::arithmetic::div_mod::{
    lemma_div_is_ordered, lemma_div_is_ordered_by_denominator, lemma_div_multiples_vanish,
    lemma_div_nonincreasing, lemma_div_of0, lemma_fundamental_div_mod_converse, lemma_mod_bound,
};
use vstd::prelude::*;

verus! {

/// Largest accepted kernel radius (64 length units).
pub const MAX_KERNEL_RADIUS: i64 = 67108864;

/// Top of the dam-break seeding region.
pub const DAM_TOP: i64 = 640 * ONE;

/// Left edge of the dam-break seeding region.
pub const DAM_LEFT: i64 = 640 * ONE;

/// Right edge of the dam-break seeding region.
pub const DAM_RIGHT: i64 = 1280 * ONE;

/// The standard kernel radius (16 length units).
pub const STANDARD_H: i64 = 16 * ONE;

/// The standard equation-of-state stiffness (3000).
pub const STANDARD_STIFFNESS: i64 = 3000 * ONE;

/// The standard rest density (1000).
pub const STANDARD_REST_DENSITY: i64 = 1000 * ONE;

/// The standard viscosity strength (100).
pub const STANDARD_VISCOSITY: i64 = 100 * ONE;

/// The standard vertical gravity, about -9.81.
pub const STANDARD_GRAVITY_Y: i64 = -10286530;

/// The standard fixed integration step, about 0.0001.
pub const STANDARD_DT: i64 = 105;

/// Explicit solver parameters. `hsq` and the two kernel normalization
/// denominators are precomputed from `h` by the constructor: `poly6_den`
/// approximates `pi * h^8 * ONE^2` and `spiky_den` approximates
/// `pi * h^5 * ONE^2` (with `355/113` for pi), so kernel weights reduce to
/// one large integer division each.
#[derive(Clone, Copy, Debug, PartialEq, Eq, Structural)]
pub struct SphConfig {
    /// Kernel smoothing radius.
    pub h: i64,
    /// `h * h`, the squared cutoff used by the neighbor tests.
    pub hsq: i64,
    /// Equation-of-state stiffness.
    pub stiffness: i64,
    /// Rest density subtracted by the equation of state.
    pub rest_density: i64,
    /// Viscosity force multiplier.
    pub viscosity: i64,
    /// Gravity acceleration.
    pub gravity: Vec2,
    /// Fixed integration time step.
    pub dt: i64,
    /// Precomputed poly6 kernel denominator.
    pub poly6_den: u128,
    /// Precomputed spiky/viscosity kernel denominator.
    pub spiky_den: u128,
}

/// The staged computation of `pi * h^8 * ONE^2`.
pub open spec fn den8_of(h: int) -> int {
    let a = h * h / (ONE as int);
    let b = a * a / (ONE as int);
    let c = b * b / (ONE as int);
    c * (ONE as int) * 355 / 113
}

/// The staged computation of `pi * h^5 * ONE^2`.
pub open spec fn den5_of(h: int) -> int {
    let a = h * h / (ONE as int);
    let b = a * a / (ONE as int);
    let e = b * h / (ONE as int);
    e * (ONE as int) * 355 / 113
}

impl SphConfig {
    pub open spec fn wf(&self) -> bool {
        &&& ONE <= self.h <= MAX_KERNEL_RADIUS
        &&& self.hsq == s_mul(self.h, self.h)
        &&& 0 < self.hsq <= 4294967296
        &&& fits(self.stiffness as int)
        &&& fits(self.rest_density as int)
        &&& fits(self.viscosity as int)
        &&& fits(self.gravity.x as int)
        &&& fits(self.gravity.y as int)
        &&& 0 < self.dt
        &&& fits(self.dt as int)
        &&& 1 <= self.poly6_den
        &&& 1 <= self.spiky_den
    }

    /// Build a configuration, precomputing the squared cutoff and the two
    /// kernel denominators from the smoothing radius.
    pub fn new(
        h: i64,
        stiffness: i64,
        rest_density: i64,
        viscosity: i64,
        gravity: Vec2,
        dt: i64,
    ) -> (r: SphConfig)
        requires
            ONE <= h <= MAX_KERNEL_RADIUS,
            fits(stiffness as int),
            fits(rest_density as int),
            fits(viscosity as int),
            fits(gravity.x as int),
            fits(gravity.y as int),
            0 < dt,
            fits(dt as int),
        ensures
            r.wf(),
            r.h == h,
            r.stiffness == stiffness,
            r.rest_density == rest_density,
            r.viscosity == viscosity,
            r.gravity == gravity,
            r.dt == dt,
            r.hsq == s_mul(h, h),
            r.poly6_den as int == den8_of(h as int),
            r.spiky_den as int == den5_of(h as int),
    {
        let hsq = fx_mul(h, h);
        let hu: u128 = h as u128;
        let oneu: u128 = ONE as u128;
        proof {
            assert(hu * hu <= 4503599627370496u128 && (ONE as u128) * (ONE as u128) <= hu
                * hu) by (nonlinear_arith)
                requires
                    1048576 <= hu <= 67108864u128,
            ;
            lemma_div_multiples_vanish(4294967296, 1048576);
            lemma_div_multiples_vanish(1048576, 1048576);
            lemma_div_is_ordered(hu as int * hu as int, 4503599627370496, 1048576);
            lemma_div_is_ordered((1048576 * 1048576) as int, hu as int * hu as int, 1048576);
        }
        let a: u128 = (hu * hu) / oneu;
        proof {
            assert(a * a <= 18446744073709551616u128 && (ONE as u128) * (ONE as u128) <= a
                * a) by (nonlinear_arith)
                requires
                    1048576 <= a <= 4294967296u128,
            ;
            lemma_div_multiples_vanish(17592186044416, 1048576);
            lemma_div_is_ordered(a as int * a as int, 18446744073709551616, 1048576);
            lemma_div_is_ordered((1048576 * 1048576) as int, a as int * a as int, 1048576);
        }
        let b: u128 = (a * a) / oneu;
        proof {
            assert(b * b <= 309485009821345068724781056u128 && (ONE as u128) * (ONE as u128) <= b
                * b && b * hu <= 1180591620717411303424u128 && (ONE as u128) * (ONE as u128) <= b
                * hu) by (nonlinear_arith)
                requires
                    1048576 <= b <= 17592186044416u128,
                    1048576 <= hu <= 67108864u128,
            ;
            lemma_div_multiples_vanish(295147905179352825856, 1048576);
            lemma_div_multiples_vanish(1125899906842624, 1048576);
            lemma_div_is_ordered(b as int * b as int, 309485009821345068724781056, 1048576);
            lemma_div_is_ordered((1048576 * 1048576) as int, b as int * b as int, 1048576);
            lemma_div_is_ordered(b as int * hu as int, 1180591620717411303424, 1048576);
            lemma_div_is_ordered((1048576 * 1048576) as int, b as int * hu as int, 1048576);
        }
        let c: u128 = (b * b) / oneu;
        let e: u128 = (b * hu) / oneu;
        proof {
            assert(c * oneu <= 309485009821345068724781056u128 && (ONE as u128) * (ONE as u128)
                <= c * oneu && e * oneu <= 1180591620717411303424u128 && (ONE as u128) * (
            ONE as u128) <= e * oneu) by (nonlinear_arith)
                requires
                    1048576 <= c <= 295147905179352825856u128,
                    1048576 <= e <= 1125899906842624u128,
                    oneu == 1048576u128,
            ;
            assert(c * oneu * 355 <= 109867178486577499397297274880u128 && 355 * ((
            ONE as u128) * (ONE as u128)) <= c * oneu * 355 && e * oneu * 355
                <= 419110025354681012715520u128 && 355 * ((ONE as u128) * (ONE as u128)) <= e
                * oneu * 355) by (nonlinear_arith)
                requires
                    (ONE as u128) * (ONE as u128) <= c * oneu <= 309485009821345068724781056u128,
                    (ONE as u128) * (ONE as u128) <= e * oneu <= 1180591620717411303424u128,
            ;
            lemma_div_is_ordered(113, c as int * oneu as int * 355, 113);
            lemma_div_is_ordered(113, e as int * oneu as int * 355, 113);
            lemma_div_multiples_vanish(1, 113);
        }
        let p6: u128 = c * oneu * 355 / 113;
        let p5: u128 = e * oneu * 355 / 113;
        SphConfig {
            h,
            hsq,
            stiffness,
            rest_density,
            viscosity,
            gravity,
            dt,
            poly6_den: p6,
            spiky_den: p5,
        }
    }

    /// The standard parameter set, built from the `STANDARD_*` constants.
    pub fn standard() -> (r: SphConfig)
        ensures
            r.wf(),
            r.h == STANDARD_H,
            r.stiffness == STANDARD_STIFFNESS,
            r.rest_density == STANDARD_REST_DENSITY,
            r.viscosity == STANDARD_VISCOSITY,
            r.gravity == (Vec2 { x: 0, y: STANDARD_GRAVITY_Y }),
            r.dt == STANDARD_DT,
    {
        SphConfig::new(
            STANDARD_H,
            STANDARD_STIFFNESS,
            STANDARD_REST_DENSITY,
            STANDARD_VISCOSITY,
            Vec2 { x: 0, y: STANDARD_GRAVITY_Y },
            STANDARD_DT,
        )
    }
}

/// poly6 density kernel term for `x = hsq - r2`: `4 x^3 / (pi h^8)`.
pub open spec fn s_w_rho(x: i64, den: int) -> i64
    recommends
        0 <= x,
        1 <= den,
{
    clip((x * x * x * 4) / den) as i64
}

/// spiky pressure kernel term for `y = h - dist`: `10 y^3 / (pi h^5)`.
pub open spec fn s_w_press(y: i64, den: int) -> i64
    recommends
        0 <= y,
        1 <= den,
{
    clip((y * y * y * 10) / den) as i64
}

/// viscosity kernel term for `y = h - dist`: `40 y / (pi h^5)`.
pub open spec fn s_w_visc(y: i64, den: int) -> i64
    recommends
        0 <= y,
        1 <= den,
{
    clip((y * (ONE as int) * (ONE as int) * 40) / den) as i64
}

fn w_rho(x: i64, den: u128) -> (r: i64)
    requires
        0 <= x,
        x as int <= 4294967296,
        1 <= den,
    ensures
        r == s_w_rho(x, den as int),
        0 <= r,
        fits(r as int),
{
    let xu: u128 = x as u128;
    proof {
        assert(xu * xu <= 18446744073709551616u128 && xu * xu * xu
            <= 79228162514264337593543950336u128 && xu * xu * xu * 4
            <= 316912650057057350374175801344u128) by (nonlinear_arith)
            requires
                xu <= 4294967296u128,
        ;
        lemma_div_is_ordered(0, xu as int * xu as int * xu as int * 4, den as int);
        lemma_div_of0(den as int);
    }
    let num: u128 = xu * xu * xu * 4;
    let q: u128 = num / den;
    if q >= LIM as u128 {
        LIM
    } else {
        q as i64
    }
}

fn w_press(y: i64, den: u128) -> (r: i64)
    requires
        0 <= y,
        y as int <= 67108864,
        1 <= den,
    ensures
        r == s_w_press(y, den as int),
        0 <= r,
        fits(r as int),
{
    let yu: u128 = y as u128;
    proof {
        assert(yu * yu <= 4503599627370496u128 && yu * yu * yu
            <= 302231454903657293676544u128 && yu * yu * yu * 10
            <= 3022314549036572936765440u128) by (nonlinear_arith)
            requires
                yu <= 67108864u128,
        ;
        lemma_div_is_ordered(0, yu as int * yu as int * yu as int * 10, den as int);
        lemma_div_of0(den as int);
    }
    let num: u128 = yu * yu * yu * 10;
    let q: u128 = num / den;
    if q >= LIM as u128 {
        LIM
    } else {
        q as i64
    }
}

fn w_visc(y: i64, den: u128) -> (r: i64)
    requires
        0 <= y,
        y as int <= 67108864,
        1 <= den,
    ensures
        r == s_w_visc(y, den as int),
        0 <= r,
        fits(r as int),
{
    let yu: u128 = y as u128;
    proof {
        assert(yu * (ONE as u128) <= 73786976294838206464u128 && yu * (ONE as u128) * (
        ONE as u128) <= 77371252455336267181195264u128 && yu * (ONE as u128) * (ONE as u128) * 40
            <= 3094850098213450687247810560u128) by (nonlinear_arith)
            requires
                yu <= 67108864u128,
        ;
        lemma_div_is_ordered(
            0,
            yu as int * (ONE as int) * (ONE as int) * 40,
            den as int,
        );
        lemma_div_of0(den as int);
    }
    let num: u128 = yu * (ONE as u128) * (ONE as u128) * 40;
    let q: u128 = num / den;
    if q >= LIM as u128 {
        LIM
    } else {
        q as i64
    }
}

/// Squared distance between two particle positions.
pub open spec fn s_dist2(a: Vec2, b: Vec2) -> i64 {
    s_add(
        s_mul(s_sub(b.x, a.x), s_sub(b.x, a.x)),
        s_mul(s_sub(b.y, a.y), s_sub(b.y, a.y)),
    )
}

fn dist2(a: Vec2, b: Vec2) -> (r: i64)
    requires
        fits(a.x as int),
        fits(a.y as int),
        fits(b.x as int),
        fits(b.y as int),
    ensures
        r == s_dist2(a, b),
        0 <= r,
        fits(r as int),
{
    let dx = fx_sub(b.x, a.x);
    let dy = fx_sub(b.y, a.y);
    proof {
        lemma_square_nonneg(dx);
        lemma_square_nonneg(dy);
    }
    fx_add(fx_mul(dx, dx), fx_mul(dy, dy))
}

/// Distance corresponding to a squared distance below the cutoff.
pub open spec fn s_dist(r2: i64) -> int {
    s_isqrt(r2 * (ONE as int))
}

fn fx_dist(r2: i64) -> (r: i64)
    requires
        0 <= r2,
        r2 as int <= 4294967296,
    ensures
        r as int == s_dist(r2),
        is_isqrt(r as int, r2 as int * (ONE as int)),
        0 <= r,
        r as int <= 67108864,
{
    let n: u64 = (r2 as u64) * (ONE as u64);
    proof {
        assert(n as int <= 4503599627370496) by (nonlinear_arith)
            requires
                n as int == (r2 as u64) as int * 1048576,
                (r2 as u64) as int <= 4294967296,
        ;
    }
    let q = fx_isqrt(n);
    proof {
        assert(q as int <= 67108864) by (nonlinear_arith)
            requires
                is_isqrt(q as int, n as int),
                n as int <= 4503599627370496,
        ;
    }
    q as i64
}

/// A distance below the cutoff lies strictly below the kernel radius.
proof fn lemma_dist_in_kernel(r2: i64, cfg: SphConfig)
    requires
        cfg.wf(),
        0 <= r2 < cfg.hsq,
        is_isqrt(s_dist(r2), r2 * (ONE as int)),
    ensures
        0 <= s_dist(r2) < cfg.h,
{
    let d = s_dist(r2);
    let hh = cfg.h as int;
    assert(hh * hh <= 4503599627370496) by (nonlinear_arith)
        requires
            0 < hh <= 67108864,
    ;
    lemma_div_multiples_vanish(4294967296, 1048576);
    lemma_div_is_ordered(hh * hh, 4503599627370496, 1048576);
    lemma_div_is_ordered(0, hh * hh, 1048576);
    lemma_div_of0(1048576);
    assert(cfg.hsq as int == hh * hh / 1048576);
    vstd::arithmetic::div_mod::lemma_fundamental_div_mod(hh * hh, 1048576);
    assert(1048576 * (hh * hh / 1048576) == (hh * hh / 1048576) * 1048576) by (nonlinear_arith);
    assert((cfg.hsq as int) * (ONE as int) <= hh * hh);
    assert((r2 as int) * (ONE as int) <= (cfg.hsq - 1) * (ONE as int)) by (nonlinear_arith)
        requires
            r2 as int <= cfg.hsq - 1,
    ;
    assert(d < hh) by (nonlinear_arith)
        requires
            0 <= d,
            d * d <= r2 * (ONE as int),
            r2 * (ONE as int) <= (cfg.hsq as int - 1) * (ONE as int),
            (cfg.hsq as int) * (ONE as int) <= hh * hh,
            0 < hh,
            0 < (ONE as int),
    ;
}

/// Per-coordinate raw values of a particle array all fit.
pub open spec fn all_fits_vec2(s: Seq<Vec2>) -> bool {
    forall|k: int|
        0 <= k < s.len() ==> fits((#[trigger] s[k]).x as int) && fits(s[k].y as int)
}

/// Minus one half, the inelastic bounce factor of the wall response.
pub const NEG_HALF: i64 = -524288;

/// Pressure-gradient force that neighbor `b` contributes to particle `a`:
/// along the unit vector from `a` to `b`, with magnitude
/// `mass_a * (press_a + press_b) / (2 rho_b) * 10 (h - dist)^3 / (pi h^5)`.
/// Coincident particles (distance zero) contribute nothing, and the pair is
/// active exactly when the squared distance is below `hsq` — the same
/// cutoff test the density pass uses.
pub open spec fn pair_press(
    pa: Vec2,
    pb: Vec2,
    press_a: i64,
    press_b: i64,
    rho_b: i64,
    mass_a: i64,
    cfg: SphConfig,
) -> Vec2 {
    let dx = s_sub(pb.x, pa.x);
    let dy = s_sub(pb.y, pa.y);
    let r2 = s_add(s_mul(dx, dx), s_mul(dy, dy));
    if r2 < cfg.hsq {
        let dist = s_dist(r2);
        let ux = if dist == 0 {
            0i64
        } else {
            s_muldiv(dx, ONE, dist as i64)
        };
        let uy = if dist == 0 {
            0i64
        } else {
            s_muldiv(dy, ONE, dist as i64)
        };
        let q = s_div(s_add(press_a, press_b), s_add(rho_b, rho_b));
        let m1 = s_mul(mass_a, q);
        let yk = s_sub(cfg.h, dist as i64);
        let wk = s_w_press(yk, cfg.spiky_den as int);
        let scal = s_mul(m1, wk);
        Vec2 { x: s_mul(ux, scal), y: s_mul(uy, scal) }
    } else {
        Vec2 { x: 0, y: 0 }
    }
}

/// Viscosity force that neighbor `b` contributes to particle `a`: the
/// relative velocity scaled by
/// `viscosity * mass_a / rho_b * 40 (h - dist) / (pi h^5)`.
pub open spec fn pair_visc(
    pa: Vec2,
    pb: Vec2,
    va: Vec2,
    vb: Vec2,
    rho_b: i64,
    mass_a: i64,
    cfg: SphConfig,
) -> Vec2 {
    let dx = s_sub(pb.x, pa.x);
    let dy = s_sub(pb.y, pa.y);
    let r2 = s_add(s_mul(dx, dx), s_mul(dy, dy));
    if r2 < cfg.hsq {
        let dist = s_dist(r2);
        let yk = s_sub(cfg.h, dist as i64);
        let wv = s_w_visc(yk, cfg.spiky_den as int);
        Vec2 {
            x: s_mul(s_mul(cfg.viscosity, s_mul(mass_a, s_div(s_sub(vb.x, va.x), rho_b))), wv),
            y: s_mul(s_mul(cfg.viscosity, s_mul(mass_a, s_div(s_sub(vb.y, va.y), rho_b))), wv),
        }
    } else {
        Vec2 { x: 0, y: 0 }
    }
}

/// Pressure and viscosity force sums over the neighbors `0 .. n` of
/// particle `i` (skipping `i` itself), accumulated in index order.
pub open spec fn forces_upto(
    pos: Seq<Vec2>,
    vel: Seq<Vec2>,
    pressure: Seq<i64>,
    rho: Seq<i64>,
    mass: Seq<i64>,
    cfg: SphConfig,
    i: int,
    n: int,
) -> (Vec2, Vec2)
    decreases n,
{
    if n <= 0 {
        (Vec2 { x: 0, y: 0 }, Vec2 { x: 0, y: 0 })
    } else {
        let prev = forces_upto(pos, vel, pressure, rho, mass, cfg, i, n - 1);
        if n - 1 == i {
            prev
        } else {
            let j = n - 1;
            let fp = pair_press(pos[i], pos[j], pressure[i], pressure[j], rho[j], mass[i], cfg);
            let fv = pair_visc(pos[i], pos[j], vel[i], vel[j], rho[j], mass[i], cfg);
            (
                (Vec2 { x: s_add(prev.0.x, fp.x), y: s_add(prev.0.y, fp.y) }),
                (Vec2 { x: s_add(prev.1.x, fv.x), y: s_add(prev.1.y, fv.y) }),
            )
        }
    }
}

/// The whole force on particle `i`: pairwise pressure and viscosity sums
/// plus gravity scaled by `mass / rho`.
pub open spec fn force_of(
    pos: Seq<Vec2>,
    vel: Seq<Vec2>,
    pressure: Seq<i64>,
    rho: Seq<i64>,
    mass: Seq<i64>,
    cfg: SphConfig,
    i: int,
) -> Vec2 {
    let acc = forces_upto(pos, vel, pressure, rho, mass, cfg, i, pos.len() as int);
    let gx = s_div(s_mul(cfg.gravity.x, mass[i]), rho[i]);
    let gy = s_div(s_mul(cfg.gravity.y, mass[i]), rho[i]);
    Vec2 { x: s_add(s_add(acc.0.x, acc.1.x), gx), y: s_add(s_add(acc.0.y, acc.1.y), gy) }
}

/// Kernel-weighted density contributions to particle `i` from particles
/// `0 .. n` (including `i` itself), accumulated in index order.
pub open spec fn rho_upto(pos: Seq<Vec2>, mass: Seq<i64>, cfg: SphConfig, i: int, n: int) -> i64
    decreases n,
{
    if n <= 0 {
        0i64
    } else {
        let prev = rho_upto(pos, mass, cfg, i, n - 1);
        let j = n - 1;
        let r2 = s_dist2(pos[i], pos[j]);
        if r2 < cfg.hsq {
            s_add(prev, s_mul(mass[j], s_w_rho(s_sub(cfg.hsq, r2), cfg.poly6_den as int)))
        } else {
            prev
        }
    }
}

/// Density of particle `i` over the whole particle set.
pub open spec fn rho_of(pos: Seq<Vec2>, mass: Seq<i64>, cfg: SphConfig, i: int) -> i64 {
    rho_upto(pos, mass, cfg, i, pos.len() as int)
}

/// Equation of state: `stiffness * (rho - rest_density)`.
pub open spec fn pressure_of(rho_i: i64, cfg: SphConfig) -> i64 {
    s_mul(cfg.stiffness, s_sub(rho_i, cfg.rest_density))
}

/// Semi-implicit Euler step for one particle, followed by the wall
/// response: a crossed wall clamps the position to the margin `h` and
/// scales the offending velocity component by `-0.5`, checking the four
/// walls in the order left, right, bottom, top.
pub open spec fn integrate_particle(
    p: Vec2,
    v: Vec2,
    f: Vec2,
    rho_i: i64,
    cfg: SphConfig,
    width: i64,
    height: i64,
) -> (Vec2, Vec2) {
    let vx1 = s_add(v.x, s_div(s_mul(cfg.dt, f.x), rho_i));
    let vy1 = s_add(v.y, s_div(s_mul(cfg.dt, f.y), rho_i));
    let px1 = s_add(p.x, s_mul(cfg.dt, vx1));
    let py1 = s_add(p.y, s_mul(cfg.dt, vy1));
    let cxl = s_sub(px1, cfg.h) < 0;
    let vx2 = if cxl {
        s_mul(vx1, NEG_HALF)
    } else {
        vx1
    };
    let px2 = if cxl {
        cfg.h
    } else {
        px1
    };
    let cxh = s_add(px2, cfg.h) > width;
    let vx3 = if cxh {
        s_mul(vx2, NEG_HALF)
    } else {
        vx2
    };
    let px3 = if cxh {
        s_sub(width, cfg.h)
    } else {
        px2
    };
    let cyl = s_sub(py1, cfg.h) < 0;
    let vy2 = if cyl {
        s_mul(vy1, NEG_HALF)
    } else {
        vy1
    };
    let py2 = if cyl {
        cfg.h
    } else {
        py1
    };
    let cyh = s_add(py2, cfg.h) > height;
    let vy3 = if cyh {
        s_mul(vy2, NEG_HALF)
    } else {
        vy2
    };
    let py3 = if cyh {
        s_sub(height, cfg.h)
    } else {
        py2
    };
    (Vec2 { x: px3, y: py3 }, Vec2 { x: vx3, y: vy3 })
}

/// Number of seeded rows in the dam region for spacing `h`.
pub open spec fn dam_rows(h: i64) -> int {
    (DAM_TOP as int - 1) / (h as int)
}

/// Number of particles per seeded row.
pub open spec fn dam_cols(h: i64) -> int {
    (DAM_RIGHT as int - DAM_LEFT as int) / (h as int) + 1
}

/// How many particles one seeding call places: the dam capacity, bounded by
/// the requested count and the remaining array capacity.
pub open spec fn seed_count(num0: int, maxp: int, dam_max: int, h: i64) -> int {
    let avail = dam_rows(h) * dam_cols(h);
    let rem = maxp - num0;
    let budget = if dam_max < rem {
        dam_max
    } else {
        rem
    };
    if avail < budget {
        avail
    } else {
        budget
    }
}

/// Vertical position of the `t`-th seeded particle: row by row, starting
/// two spacings above the floor.
pub open spec fn seed_y(t: int, h: i64) -> i64 {
    clip((t / dam_cols(h) + 2) * h) as i64
}

/// Horizontal base position of the `t`-th seeded particle; the particle
/// lands at this base plus a random jitter below one length unit.
pub open spec fn seed_x_base(t: int, h: i64) -> i64 {
    s_add(DAM_LEFT, clip((t % dam_cols(h) + 1) * (h as int)) as i64)
}

/// Everything an SPH step transforms, as one value.
#[verifier::ext_equal]
pub ghost struct SphState {
    pub position: Seq<Vec2>,
    pub velocity: Seq<Vec2>,
    pub forces: Seq<Vec2>,
    pub rho: Seq<i64>,
    pub pressure: Seq<i64>,
    pub mass: Seq<i64>,
    pub instances: Seq<Instance>,
}

/// The renderable instance for a particle: its position at depth zero,
/// colored blue.
pub open spec fn particle_instance(p: Vec2) -> Instance {
    Instance { position: (p.x, p.y, 0), color: (0, 0, ONE) }
}

/// One whole SPH step, as a function of the previous state: density and
/// pressure from an all-pairs scan, then forces, then integration with wall
/// response, then the rebuilt instance buffer.
pub open spec fn sph_step(st: SphState, cfg: SphConfig, width: i64, height: i64) -> SphState {
    let rho1 = Seq::new(st.rho.len(), |i: int| rho_of(st.position, st.mass, cfg, i));
    let press1 = Seq::new(st.pressure.len(), |i: int| pressure_of(rho1[i], cfg));
    let forces2 = Seq::new(
        st.forces.len(),
        |i: int| force_of(st.position, st.velocity, press1, rho1, st.mass, cfg, i),
    );
    let moved = Seq::new(
        st.position.len(),
        |i: int| integrate_particle(st.position[i], st.velocity[i], forces2[i], rho1[i], cfg, width, height),
    );
    let pos3 = Seq::new(moved.len(), |i: int| moved[i].0);
    let vel3 = Seq::new(moved.len(), |i: int| moved[i].1);
    SphState {
        position: pos3,
        velocity: vel3,
        forces: forces2,
        rho: rho1,
        pressure: press1,
        mass: st.mass,
        instances: Seq::new(pos3.len(), |i: int| particle_instance(pos3[i])),
    }
}

/// Pressure-pair antisymmetry: for two particles within kernel range with
/// equal masses and equal densities, the pressure force that `b`
/// contributes to `a` is the exact negative of the force `a` contributes to
/// `b` — every operation involved truncates toward zero, so the two
/// computations mirror each other bit for bit. With unequal densities the
/// two magnitudes instead differ by the neighbor-density normalization
/// `1 / (2 rho)`, which is the asymmetry the kernel formula builds in.
pub proof fn lemma_pair_pressure_antisymmetry(
    pa: Vec2,
    pb: Vec2,
    press_a: i64,
    press_b: i64,
    rho: i64,
    mass: i64,
    cfg: SphConfig,
)
    requires
        fits(pa.x as int),
        fits(pa.y as int),
        fits(pb.x as int),
        fits(pb.y as int),
    ensures
        pair_press(pb, pa, press_b, press_a, rho, mass, cfg).x == s_neg(
            pair_press(pa, pb, press_a, press_b, rho, mass, cfg).x,
        ),
        pair_press(pb, pa, press_b, press_a, rho, mass, cfg).y == s_neg(
            pair_press(pa, pb, press_a, press_b, rho, mass, cfg).y,
        ),
{
    let dx = s_sub(pb.x, pa.x);
    let dy = s_sub(pb.y, pa.y);
    let dx2 = s_sub(pa.x, pb.x);
    let dy2 = s_sub(pa.y, pb.y);
    lemma_clip_neg(pb.x - pa.x);
    lemma_clip_neg(pb.y - pa.y);
    assert(dx2 as int == -(dx as int) && dy2 as int == -(dy as int));
    assert((dx2 as int) * (dx2 as int) == (dx as int) * (dx as int) && (dy2 as int) * (
    dy2 as int) == (dy as int) * (dy as int)) by (nonlinear_arith)
        requires
            dx2 as int == -(dx as int),
            dy2 as int == -(dy as int),
    ;
    let r2 = s_add(s_mul(dx, dx), s_mul(dy, dy));
    if r2 < cfg.hsq {
        lemma_square_nonneg(dx);
        lemma_square_nonneg(dy);
        lemma_isqrt_exists(r2 * (ONE as int));
        let dist = s_dist(r2);
        assert(dist <= 0x10000000000) by (nonlinear_arith)
            requires
                is_isqrt(dist, r2 * (ONE as int)),
                r2 * (ONE as int) <= (LIM as int) * (ONE as int),
        ;
        if dist != 0 {
            lemma_muldiv_neg(dx, ONE, dist as i64);
            lemma_muldiv_neg(dy, ONE, dist as i64);
            let q = s_div(s_add(press_a, press_b), s_add(rho, rho));
            let yk = s_sub(cfg.h, dist as i64);
            let scal = s_mul(s_mul(mass, q), s_w_press(yk, cfg.spiky_den as int));
            lemma_muldiv_neg(s_muldiv(dx, ONE, dist as i64), scal, ONE);
            lemma_muldiv_neg(s_muldiv(dy, ONE, dist as i64), scal, ONE);
        }
    }
}

/// Viscosity-pair antisymmetry under equal masses and densities: the
/// relative-velocity factor flips sign between the two directions and
/// everything else is symmetric.
pub proof fn lemma_pair_viscosity_antisymmetry(
    pa: Vec2,
    pb: Vec2,
    va: Vec2,
    vb: Vec2,
    rho: i64,
    mass: i64,
    cfg: SphConfig,
)
    requires
        fits(pa.x as int),
        fits(pa.y as int),
        fits(pb.x as int),
        fits(pb.y as int),
        fits(va.x as int),
        fits(va.y as int),
        fits(vb.x as int),
        fits(vb.y as int),
    ensures
        pair_visc(pb, pa, vb, va, rho, mass, cfg).x == s_neg(
            pair_visc(pa, pb, va, vb, rho, mass, cfg).x,
        ),
        pair_visc(pb, pa, vb, va, rho, mass, cfg).y == s_neg(
            pair_visc(pa, pb, va, vb, rho, mass, cfg).y,
        ),
{
    let dx = s_sub(pb.x, pa.x);
    let dy = s_sub(pb.y, pa.y);
    let dx2 = s_sub(pa.x, pb.x);
    let dy2 = s_sub(pa.y, pb.y);
    lemma_clip_neg(pb.x - pa.x);
    lemma_clip_neg(pb.y - pa.y);
    assert((dx2 as int) * (dx2 as int) == (dx as int) * (dx as int) && (dy2 as int) * (
    dy2 as int) == (dy as int) * (dy as int)) by (nonlinear_arith)
        requires
            dx2 as int == -(dx as int),
            dy2 as int == -(dy as int),
    ;
    let r2 = s_add(s_mul(dx, dx), s_mul(dy, dy));
    if r2 < cfg.hsq {
        let dist = s_dist(r2);
        let yk = s_sub(cfg.h, dist as i64);
        let wv = s_w_visc(yk, cfg.spiky_den as int);
        lemma_clip_neg(vb.x - va.x);
        lemma_clip_neg(vb.y - va.y);
        assert(s_sub(va.x, vb.x) == s_neg(s_sub(vb.x, va.x)));
        assert(s_sub(va.y, vb.y) == s_neg(s_sub(vb.y, va.y)));
        lemma_div_neg(s_sub(vb.x, va.x), rho);
        lemma_div_neg(s_sub(vb.y, va.y), rho);
        lemma_mul_neg_right(mass, s_div(s_sub(vb.x, va.x), rho));
        lemma_mul_neg_right(mass, s_div(s_sub(vb.y, va.y), rho));
        lemma_mul_neg_right(cfg.viscosity, s_mul(mass, s_div(s_sub(vb.x, va.x), rho)));
        lemma_mul_neg_right(cfg.viscosity, s_mul(mass, s_div(s_sub(vb.y, va.y), rho)));
        lemma_muldiv_neg(
            s_mul(cfg.viscosity, s_mul(mass, s_div(s_sub(vb.x, va.x), rho))),
            wv,
            ONE,
        );
        lemma_muldiv_neg(
            s_mul(cfg.viscosity, s_mul(mass, s_div(s_sub(vb.y, va.y), rho))),
            wv,
            ONE,
        );
    }
}

/// Wall containment: whatever state a particle is integrated from, its
/// post-step position lies within the margin `h` of every domain wall.
pub proof fn lemma_integrate_containment(
    p: Vec2,
    v: Vec2,
    f: Vec2,
    rho_i: i64,
    cfg: SphConfig,
    width: i64,
    height: i64,
)
    requires
        cfg.wf(),
        fits(p.x as int),
        fits(p.y as int),
        fits(v.x as int),
        fits(v.y as int),
        fits(f.x as int),
        fits(f.y as int),
        fits(rho_i as int),
        2 * cfg.h <= width < LIM,
        2 * cfg.h <= height < LIM,
    ensures
        cfg.h <= integrate_particle(p, v, f, rho_i, cfg, width, height).0.x <= width - cfg.h,
        cfg.h <= integrate_particle(p, v, f, rho_i, cfg, width, height).0.y <= height - cfg.h,
{
    let vx1 = s_add(v.x, s_div(s_mul(cfg.dt, f.x), rho_i));
    let vy1 = s_add(v.y, s_div(s_mul(cfg.dt, f.y), rho_i));
    let px1 = s_add(p.x, s_mul(cfg.dt, vx1));
    let py1 = s_add(p.y, s_mul(cfg.dt, vy1));
    let px2 = if s_sub(px1, cfg.h) < 0 {
        cfg.h
    } else {
        px1
    };
    let py2 = if s_sub(py1, cfg.h) < 0 {
        cfg.h
    } else {
        py1
    };
    if !(s_add(px2, cfg.h) > width) {
        assert(px2 + cfg.h <= LIM);
    }
    if !(s_add(py2, cfg.h) > height) {
        assert(py2 + cfg.h <= LIM);
    }
}

/// The inelastic bounce factor `-0.5` never keeps a nonzero velocity's
/// sign and never grows its magnitude.
pub proof fn lemma_bounce_flips_sign(v: i64)
    requires
        fits(v as int),
    ensures
        v > 0 ==> -v <= s_mul(v, NEG_HALF) <= 0,
        v < 0 ==> 0 <= s_mul(v, NEG_HALF) <= -v,
        v == 0 ==> s_mul(v, NEG_HALF) == 0,
{
    let prod = (v as int) * (HALF as int);
    assert((v as int) * (NEG_HALF as int) == -prod) by (nonlinear_arith)
        requires
            prod == (v as int) * (HALF as int),
    ;
    lemma_div_of0(ONE as int);
    if v > 0 {
        assert(0 <= prod && prod <= (v as int) * (ONE as int)) by (nonlinear_arith)
            requires
                v > 0,
                prod == (v as int) * (HALF as int),
        ;
        lemma_tdiv_bound(prod, v as int, ONE as int);
        lemma_tdiv_is_ordered(0, prod, ONE as int);
        lemma_tdiv_neg(prod, ONE as int);
    } else if v < 0 {
        assert(-prod >= 0 && -prod <= (-(v as int)) * (ONE as int)) by (nonlinear_arith)
            requires
                v < 0,
                prod == (v as int) * (HALF as int),
        ;
        lemma_tdiv_bound(-prod, -(v as int), ONE as int);
        lemma_tdiv_is_ordered(0, -prod, ONE as int);
    }
}

/// One SPH step is a pure function of the previous state and the
/// configuration — the only randomness in the solver is the seeding jitter
/// drawn once by `init_scene` — so two solvers in equal states stay equal.
pub proof fn lemma_sph_step_deterministic(
    a: SphState,
    b: SphState,
    cfg: SphConfig,
    width: i64,
    height: i64,
)
    requires
        a == b,
    ensures
        sph_step(a, cfg, width, height) == sph_step(b, cfg, width, height),
{
}

/// Relies on `rand::random::<u32>`: a uniformly distributed 32-bit value.
/// Reduced modulo `ONE` (2^32 is a multiple of it, so without bias) it
/// yields a placement jitter in `[0, ONE)`.
#[verifier::external_body]
fn jitter_raw() -> (r: i64)
    ensures
        0 <= r < ONE,
{
    (rand::random::<u32>() % 1048576) as i64
}

pub struct SPHSimulation {
    /// Domain width; particles are kept inside `[h, width - h]`.
    pub width: i64,
    /// Domain height.
    pub height: i64,
    /// One renderable point per particle, rebuilt every step.
    pub instances: Vec<Instance>,
    /// Capacity; `init_scene` never seeds beyond it.
    pub max_particles: usize,
    /// Current particle count; all parallel arrays have this length.
    pub num_particles: usize,
    /// Particle positions.
    pub position: Vec<Vec2>,
    velocity: Vec<Vec2>,
    forces: Vec<Vec2>,
    rho: Vec<i64>,
    pressure: Vec<i64>,
    mass: Vec<i64>,
    cfg: SphConfig,
}

impl SPHSimulation {
    pub closed spec fn width_spec(&self) -> i64 {
        self.width
    }

    pub closed spec fn height_spec(&self) -> i64 {
        self.height
    }

    pub closed spec fn max_spec(&self) -> usize {
        self.max_particles
    }

    pub closed spec fn num_spec(&self) -> usize {
        self.num_particles
    }

    pub closed spec fn cfg_spec(&self) -> SphConfig {
        self.cfg
    }

    pub closed spec fn pos_seq(&self) -> Seq<Vec2> {
        self.position@
    }

    pub closed spec fn vel_seq(&self) -> Seq<Vec2> {
        self.velocity@
    }

    pub closed spec fn forces_seq(&self) -> Seq<Vec2> {
        self.forces@
    }

    pub closed spec fn rho_seq(&self) -> Seq<i64> {
        self.rho@
    }

    pub closed spec fn press_seq(&self) -> Seq<i64> {
        self.pressure@
    }

    pub closed spec fn mass_seq(&self) -> Seq<i64> {
        self.mass@
    }

    pub closed spec fn inst_seq(&self) -> Seq<Instance> {
        self.instances@
    }

    pub closed spec fn state(&self) -> SphState {
        SphState {
            position: self.position@,
            velocity: self.velocity@,
            forces: self.forces@,
            rho: self.rho@,
            pressure: self.pressure@,
            mass: self.mass@,
            instances: self.instances@,
        }
    }

    pub closed spec fn wf(&self) -> bool {
        &&& self.cfg.wf()
        &&& self.num_particles <= self.max_particles
        &&& self.position@.len() == self.num_particles
        &&& self.velocity@.len() == self.num_particles
        &&& self.forces@.len() == self.num_particles
        &&& self.rho@.len() == self.num_particles
        &&& self.pressure@.len() == self.num_particles
        &&& self.mass@.len() == self.num_particles
        &&& 2 * self.cfg.h <= self.width < LIM
        &&& 2 * self.cfg.h <= self.height < LIM
        &&& all_fits_vec2(self.position@)
        &&& all_fits_vec2(self.velocity@)
        &&& all_fits_vec2(self.forces@)
        &&& all_fits(self.rho@)
        &&& all_fits(self.pressure@)
        &&& all_fits(self.mass@)
    }

    /// Allocate an empty solver for a `[0, width] x [0, height]` domain.
    pub fn new(width: i64, height: i64, max_particles: usize, cfg: SphConfig) -> (r: Self)
        requires
            cfg.wf(),
            2 * cfg.h <= width < LIM,
            2 * cfg.h <= height < LIM,
        ensures
            r.wf(),
            r.width_spec() == width,
            r.height_spec() == height,
            r.max_spec() == max_particles,
            r.num_spec() == 0,
            r.cfg_spec() == cfg,
            r.pos_seq().len() == 0,
            r.inst_seq().len() == 0,
    {
        SPHSimulation {
            width,
            height,
            instances: Vec::new(),
            max_particles,
            num_particles: 0,
            position: Vec::new(),
            velocity: Vec::new(),
            forces: Vec::new(),
            rho: Vec::new(),
            pressure: Vec::new(),
            mass: Vec::new(),
            cfg,
        }
    }

    /// Append one particle at rest: zero velocity and force, density one,
    /// pressure zero, mass one.
    pub fn add_particle(&mut self, x: i64, y: i64)
        requires
            old(self).wf(),
            old(self).num_spec() < old(self).max_spec(),
            fits(x as int),
            fits(y as int),
        ensures
            final(self).wf(),
            final(self).width_spec() == old(self).width_spec(),
            final(self).height_spec() == old(self).height_spec(),
            final(self).max_spec() == old(self).max_spec(),
            final(self).cfg_spec() == old(self).cfg_spec(),
            final(self).num_spec() == old(self).num_spec() + 1,
            final(self).pos_seq() == old(self).pos_seq().push(Vec2 { x, y }),
            final(self).vel_seq() == old(self).vel_seq().push(Vec2 { x: 0, y: 0 }),
            final(self).forces_seq() == old(self).forces_seq().push(Vec2 { x: 0, y: 0 }),
            final(self).rho_seq() == old(self).rho_seq().push(ONE),
            final(self).press_seq() == old(self).press_seq().push(0),
            final(self).mass_seq() == old(self).mass_seq().push(ONE),
            final(self).inst_seq() == old(self).inst_seq(),
    {
        self.num_particles = self.num_particles + 1;
        self.position.push(Vec2 { x, y });
        self.velocity.push(Vec2 { x: 0, y: 0 });
        self.forces.push(Vec2 { x: 0, y: 0 });
        self.rho.push(ONE);
        self.pressure.push(0);
        self.mass.push(ONE);
    }

    /// Rebuild the renderable instance buffer: one blue point per particle.
    #[verifier::loop_isolation(false)]
    pub fn update_instances(&mut self)
        requires
            old(self).wf(),
        ensures
            final(self).wf(),
            final(self).width_spec() == old(self).width_spec(),
            final(self).height_spec() == old(self).height_spec(),
            final(self).max_spec() == old(self).max_spec(),
            final(self).cfg_spec() == old(self).cfg_spec(),
            final(self).num_spec() == old(self).num_spec(),
            final(self).pos_seq() == old(self).pos_seq(),
            final(self).vel_seq() == old(self).vel_seq(),
            final(self).forces_seq() == old(self).forces_seq(),
            final(self).rho_seq() == old(self).rho_seq(),
            final(self).press_seq() == old(self).press_seq(),
            final(self).mass_seq() == old(self).mass_seq(),
            final(self).inst_seq() == Seq::new(
                old(self).num_spec() as nat,
                |i: int| particle_instance(old(self).pos_seq()[i]),
            ),
    {
        let n = self.num_particles;
        let mut instances: Vec<Instance> = Vec::new();
        let mut i: usize = 0;
        while i < n
            invariant
                i <= n,
                *self == *old(self),
                instances@ =~= Seq::new(i as nat, |t: int| particle_instance(self.position@[t])),
            decreases n - i,
        {
            let p = self.position[i];
            instances.push(Instance { position: (p.x, p.y, 0), color: (0, 0, ONE) });
            i = i + 1;
        }
        self.instances = instances;
        proof {
            assert(self.instances@ =~= Seq::new(
                old(self).num_spec() as nat,
                |t: int| particle_instance(old(self).pos_seq()[t]),
            ));
        }
    }

    /// Recompute every particle's density from the kernel-weighted
    /// all-pairs scan (the particle's own contribution included) and its
    /// pressure from the equation of state. Each output slot depends only
    /// on the shared positions and masses, so slots are independent.
    #[verifier::loop_isolation(false)]
    pub fn compute_d_p(&mut self)
        requires
            old(self).wf(),
        ensures
            final(self).wf(),
            final(self).width_spec() == old(self).width_spec(),
            final(self).height_spec() == old(self).height_spec(),
            final(self).max_spec() == old(self).max_spec(),
            final(self).cfg_spec() == old(self).cfg_spec(),
            final(self).num_spec() == old(self).num_spec(),
            final(self).pos_seq() == old(self).pos_seq(),
            final(self).vel_seq() == old(self).vel_seq(),
            final(self).forces_seq() == old(self).forces_seq(),
            final(self).mass_seq() == old(self).mass_seq(),
            final(self).inst_seq() == old(self).inst_seq(),
            final(self).rho_seq().len() == old(self).num_spec(),
            forall|i: int|
                0 <= i < old(self).num_spec() ==> #[trigger] final(self).rho_seq()[i] == rho_of(
                    old(self).pos_seq(),
                    old(self).mass_seq(),
                    old(self).cfg_spec(),
                    i,
                ),
            forall|i: int|
                0 <= i < old(self).num_spec() ==> #[trigger] final(self).press_seq()[i]
                    == pressure_of(
                    rho_of(old(self).pos_seq(), old(self).mass_seq(), old(self).cfg_spec(), i),
                    old(self).cfg_spec(),
                ),
    {
        let n = self.num_particles;
        let ghost pos0 = self.position@;
        let ghost mass0 = self.mass@;
        let ghost cfg0 = self.cfg;
        let mut i: usize = 0;
        while i < n
            invariant
                i <= n,
                self.wf(),
                self.width == old(self).width_spec(),
                self.height == old(self).height_spec(),
                self.max_particles == old(self).max_spec(),
                self.cfg == cfg0,
                self.num_particles == n,
                self.position@ == pos0,
                self.velocity@ == old(self).vel_seq(),
                self.forces@ == old(self).forces_seq(),
                self.mass@ == mass0,
                self.instances@ == old(self).inst_seq(),
                self.rho@.len() == n,
                self.pressure@.len() == n,
                forall|t: int|
                    0 <= t < i ==> #[trigger] self.rho@[t] == rho_of(pos0, mass0, cfg0, t),
                forall|t: int|
                    0 <= t < i ==> #[trigger] self.pressure@[t] == pressure_of(
                        rho_of(pos0, mass0, cfg0, t),
                        cfg0,
                    ),
            decreases n - i,
        {
            let mut acc: i64 = 0;
            let mut j: usize = 0;
            while j < n
                invariant
                    j <= n,
                    i < n,
                    acc == rho_upto(pos0, mass0, cfg0, i as int, j as int),
                    fits(acc as int),
                decreases n - j,
            {
                let r2 = dist2(self.position[i], self.position[j]);
                if r2 < self.cfg.hsq {
                    let x = fx_sub(self.cfg.hsq, r2);
                    let w = w_rho(x, self.cfg.poly6_den);
                    acc = fx_add(acc, fx_mul(self.mass[j], w));
                }
                j = j + 1;
            }
            let prs = fx_mul(self.cfg.stiffness, fx_sub(acc, self.cfg.rest_density));
            self.rho[i] = acc;
            self.pressure[i] = prs;
            i = i + 1;
        }
    }

    /// Recompute every particle's force accumulator: the pairwise pressure
    /// and viscosity forces over its neighbors, plus gravity.
    #[verifier::loop_isolation(false)]
    pub fn compute_forces(&mut self)
        requires
            old(self).wf(),
        ensures
            final(self).wf(),
            final(self).width_spec() == old(self).width_spec(),
            final(self).height_spec() == old(self).height_spec(),
            final(self).max_spec() == old(self).max_spec(),
            final(self).cfg_spec() == old(self).cfg_spec(),
            final(self).num_spec() == old(self).num_spec(),
            final(self).pos_seq() == old(self).pos_seq(),
            final(self).vel_seq() == old(self).vel_seq(),
            final(self).rho_seq() == old(self).rho_seq(),
            final(self).press_seq() == old(self).press_seq(),
            final(self).mass_seq() == old(self).mass_seq(),
            final(self).inst_seq() == old(self).inst_seq(),
            final(self).forces_seq().len() == old(self).num_spec(),
            forall|i: int|
                0 <= i < old(self).num_spec() ==> #[trigger] final(self).forces_seq()[i]
                    == force_of(
                    old(self).pos_seq(),
                    old(self).vel_seq(),
                    old(self).press_seq(),
                    old(self).rho_seq(),
                    old(self).mass_seq(),
                    old(self).cfg_spec(),
                    i,
                ),
    {
        let n = self.num_particles;
        let ghost pos0 = self.position@;
        let ghost vel0 = self.velocity@;
        let ghost press0 = self.pressure@;
        let ghost rho0 = self.rho@;
        let ghost mass0 = self.mass@;
        let ghost cfg0 = self.cfg;
        let mut i: usize = 0;
        while i < n
            invariant
                i <= n,
                self.wf(),
                self.width == old(self).width_spec(),
                self.height == old(self).height_spec(),
                self.max_particles == old(self).max_spec(),
                self.cfg == cfg0,
                self.num_particles == n,
                self.position@ == pos0,
                self.velocity@ == vel0,
                self.pressure@ == press0,
                self.rho@ == rho0,
                self.mass@ == mass0,
                self.instances@ == old(self).inst_seq(),
                self.forces@.len() == n,
                forall|t: int|
                    0 <= t < i ==> #[trigger] self.forces@[t] == force_of(
                        pos0,
                        vel0,
                        press0,
                        rho0,
                        mass0,
                        cfg0,
                        t,
                    ),
            decreases n - i,
        {
            let mut fpx: i64 = 0;
            let mut fpy: i64 = 0;
            let mut fvx: i64 = 0;
            let mut fvy: i64 = 0;
            let mut j: usize = 0;
            while j < n
                invariant
                    j <= n,
                    i < n,
                    fpx == forces_upto(pos0, vel0, press0, rho0, mass0, cfg0, i as int, j as int).0.x,
                    fpy == forces_upto(pos0, vel0, press0, rho0, mass0, cfg0, i as int, j as int).0.y,
                    fvx == forces_upto(pos0, vel0, press0, rho0, mass0, cfg0, i as int, j as int).1.x,
                    fvy == forces_upto(pos0, vel0, press0, rho0, mass0, cfg0, i as int, j as int).1.y,
                    fits(fpx as int),
                    fits(fpy as int),
                    fits(fvx as int),
                    fits(fvy as int),
                decreases n - j,
            {
                if j != i {
                    let pi = self.position[i];
                    let pj = self.position[j];
                    let dx = fx_sub(pj.x, pi.x);
                    let dy = fx_sub(pj.y, pi.y);
                    proof {
                        lemma_square_nonneg(dx);
                        lemma_square_nonneg(dy);
                    }
                    let r2 = fx_add(fx_mul(dx, dx), fx_mul(dy, dy));
                    if r2 < self.cfg.hsq {
                        let dist = fx_dist(r2);
                        proof {
                            lemma_dist_in_kernel(r2, self.cfg);
                        }
                        let ux = if dist == 0 {
                            0
                        } else {
                            fx_muldiv(dx, ONE, dist)
                        };
                        let uy = if dist == 0 {
                            0
                        } else {
                            fx_muldiv(dy, ONE, dist)
                        };
                        let q = fx_div(
                            fx_add(self.pressure[i], self.pressure[j]),
                            fx_add(self.rho[j], self.rho[j]),
                        );
                        let m1 = fx_mul(self.mass[i], q);
                        let yk = fx_sub(self.cfg.h, dist);
                        let wk = w_press(yk, self.cfg.spiky_den);
                        let scal = fx_mul(m1, wk);
                        fpx = fx_add(fpx, fx_mul(ux, scal));
                        fpy = fx_add(fpy, fx_mul(uy, scal));
                        let wv = w_visc(yk, self.cfg.spiky_den);
                        let vi = self.velocity[i];
                        let vj = self.velocity[j];
                        let tvx = fx_mul(
                            fx_mul(self.cfg.viscosity, fx_mul(self.mass[i], fx_div(fx_sub(vj.x, vi.x), self.rho[j]))),
                            wv,
                        );
                        let tvy = fx_mul(
                            fx_mul(self.cfg.viscosity, fx_mul(self.mass[i], fx_div(fx_sub(vj.y, vi.y), self.rho[j]))),
                            wv,
                        );
                        fvx = fx_add(fvx, tvx);
                        fvy = fx_add(fvy, tvy);
                    }
                }
                j = j + 1;
            }
            let gx = fx_div(fx_mul(self.cfg.gravity.x, self.mass[i]), self.rho[i]);
            let gy = fx_div(fx_mul(self.cfg.gravity.y, self.mass[i]), self.rho[i]);
            let ffx = fx_add(fx_add(fpx, fvx), gx);
            let ffy = fx_add(fx_add(fpy, fvy), gy);
            self.forces[i] = Vec2 { x: ffx, y: ffy };
            i = i + 1;
        }
    }

    /// Advance every particle by the configured fixed step `cfg.dt`
    /// (semi-implicit Euler) and reflect it off the domain walls. The frame
    /// delta is accepted only as a cadence signal; it never drives the
    /// integration magnitude. After the call every particle lies within
    /// `[h, width - h] x [h, height - h]`.
    #[verifier::loop_isolation(false)]
    #[allow(unused_variables)]
    pub fn integrate(&mut self, dt: i64)
        requires
            old(self).wf(),
        ensures
            final(self).wf(),
            final(self).width_spec() == old(self).width_spec(),
            final(self).height_spec() == old(self).height_spec(),
            final(self).max_spec() == old(self).max_spec(),
            final(self).cfg_spec() == old(self).cfg_spec(),
            final(self).num_spec() == old(self).num_spec(),
            final(self).forces_seq() == old(self).forces_seq(),
            final(self).rho_seq() == old(self).rho_seq(),
            final(self).press_seq() == old(self).press_seq(),
            final(self).mass_seq() == old(self).mass_seq(),
            final(self).inst_seq() == old(self).inst_seq(),
            final(self).pos_seq().len() == old(self).num_spec(),
            final(self).vel_seq().len() == old(self).num_spec(),
            forall|i: int|
                0 <= i < old(self).num_spec() ==> #[trigger] final(self).pos_seq()[i]
                    == integrate_particle(
                    old(self).pos_seq()[i],
                    old(self).vel_seq()[i],
                    old(self).forces_seq()[i],
                    old(self).rho_seq()[i],
                    old(self).cfg_spec(),
                    old(self).width_spec(),
                    old(self).height_spec(),
                ).0,
            forall|i: int|
                0 <= i < old(self).num_spec() ==> #[trigger] final(self).vel_seq()[i]
                    == integrate_particle(
                    old(self).pos_seq()[i],
                    old(self).vel_seq()[i],
                    old(self).forces_seq()[i],
                    old(self).rho_seq()[i],
                    old(self).cfg_spec(),
                    old(self).width_spec(),
                    old(self).height_spec(),
                ).1,
            forall|i: int|
                0 <= i < old(self).num_spec() ==> old(self).cfg_spec().h <= (
                #[trigger] final(self).pos_seq()[i]).x <= old(self).width_spec() - old(self).cfg_spec().h && old(self).cfg_spec().h <= final(self).pos_seq()[i].y <= old(self).height_spec() - old(self).cfg_spec().h,
    {
        let n = self.num_particles;
        let ghost pos0 = self.position@;
        let ghost vel0 = self.velocity@;
        let ghost cfg0 = self.cfg;
        let ghost w0 = self.width;
        let ghost h0 = self.height;
        let mut i: usize = 0;
        while i < n
            invariant
                i <= n,
                self.wf(),
                self.width == old(self).width_spec(),
                self.height == old(self).height_spec(),
                self.max_particles == old(self).max_spec(),
                self.cfg == cfg0,
                self.num_particles == n,
                self.forces@ == old(self).forces_seq(),
                self.rho@ == old(self).rho_seq(),
                self.pressure@ == old(self).press_seq(),
                self.mass@ == old(self).mass_seq(),
                self.instances@ == old(self).inst_seq(),
                self.position@.len() == n,
                self.velocity@.len() == n,
                forall|t: int|
                    0 <= t < i ==> #[trigger] self.position@[t] == integrate_particle(
                        pos0[t],
                        vel0[t],
                        self.forces@[t],
                        self.rho@[t],
                        cfg0,
                        w0,
                        h0,
                    ).0,
                forall|t: int|
                    0 <= t < i ==> #[trigger] self.velocity@[t] == integrate_particle(
                        pos0[t],
                        vel0[t],
                        self.forces@[t],
                        self.rho@[t],
                        cfg0,
                        w0,
                        h0,
                    ).1,
                forall|t: int|
                    0 <= t < i ==> cfg0.h <= (#[trigger] self.position@[t]).x <= w0 - cfg0.h
                        && cfg0.h <= self.position@[t].y <= h0 - cfg0.h,
                forall|t: int| i <= t < n ==> #[trigger] self.position@[t] == pos0[t],
                forall|t: int| i <= t < n ==> #[trigger] self.velocity@[t] == vel0[t],
            decreases n - i,
        {
            let p = self.position[i];
            let v = self.velocity[i];
            let f = self.forces[i];
            let rho_i = self.rho[i];
            let hk = self.cfg.h;
            let vx1 = fx_add(v.x, fx_div(fx_mul(self.cfg.dt, f.x), rho_i));
            let vy1 = fx_add(v.y, fx_div(fx_mul(self.cfg.dt, f.y), rho_i));
            let px1 = fx_add(p.x, fx_mul(self.cfg.dt, vx1));
            let py1 = fx_add(p.y, fx_mul(self.cfg.dt, vy1));
            let cxl = fx_sub(px1, hk) < 0;
            let vx2 = if cxl {
                fx_mul(vx1, NEG_HALF)
            } else {
                vx1
            };
            let px2 = if cxl {
                hk
            } else {
                px1
            };
            let cxh = fx_add(px2, hk) > self.width;
            let vx3 = if cxh {
                fx_mul(vx2, NEG_HALF)
            } else {
                vx2
            };
            let px3 = if cxh {
                fx_sub(self.width, hk)
            } else {
                px2
            };
            let cyl = fx_sub(py1, hk) < 0;
            let vy2 = if cyl {
                fx_mul(vy1, NEG_HALF)
            } else {
                vy1
            };
            let py2 = if cyl {
                hk
            } else {
                py1
            };
            let cyh = fx_add(py2, hk) > self.height;
            let vy3 = if cyh {
                fx_mul(vy2, NEG_HALF)
            } else {
                vy2
            };
            let py3 = if cyh {
                fx_sub(self.height, hk)
            } else {
                py2
            };
            proof {
                if !cxh {
                    assert(px2 + hk <= LIM);
                }
                if !cyh {
                    assert(py2 + hk <= LIM);
                }
                assert(cfg0.h <= px3 <= w0 - cfg0.h);
                assert(cfg0.h <= py3 <= h0 - cfg0.h);
            }
            self.position[i] = Vec2 { x: px3, y: py3 };
            self.velocity[i] = Vec2 { x: vx3, y: vy3 };
            i = i + 1;
        }
    }

    /// Seed a rectangular dam of particles on a grid of spacing `h`, row by
    /// row, each particle offset by an independent random horizontal jitter
    /// of less than one length unit, until the requested count, the
    /// capacity, or the dam region is exhausted.
    #[verifier::loop_isolation(false)]
    pub fn init_scene(&mut self, dam_max_particles: usize)
        requires
            old(self).wf(),
        ensures
            final(self).wf(),
            final(self).width_spec() == old(self).width_spec(),
            final(self).height_spec() == old(self).height_spec(),
            final(self).max_spec() == old(self).max_spec(),
            final(self).cfg_spec() == old(self).cfg_spec(),
            final(self).inst_seq() == old(self).inst_seq(),
            final(self).num_spec() == old(self).num_spec() + seed_count(
                old(self).num_spec() as int,
                old(self).max_spec() as int,
                dam_max_particles as int,
                old(self).cfg_spec().h,
            ),
            forall|s: int|
                0 <= s < old(self).num_spec() ==> #[trigger] final(self).pos_seq()[s] == old(self).pos_seq()[s],
            forall|s: int|
                0 <= s < old(self).num_spec() ==> #[trigger] final(self).vel_seq()[s] == old(self).vel_seq()[s],
            forall|s: int|
                0 <= s < old(self).num_spec() ==> #[trigger] final(self).forces_seq()[s] == old(self).forces_seq()[s],
            forall|s: int|
                0 <= s < old(self).num_spec() ==> #[trigger] final(self).rho_seq()[s] == old(self).rho_seq()[s],
            forall|s: int|
                0 <= s < old(self).num_spec() ==> #[trigger] final(self).press_seq()[s] == old(self).press_seq()[s],
            forall|s: int|
                0 <= s < old(self).num_spec() ==> #[trigger] final(self).mass_seq()[s] == old(self).mass_seq()[s],
            forall|s: int|
                old(self).num_spec() <= s < final(self).num_spec() ==> (
                #[trigger] final(self).vel_seq()[s]) == (Vec2 { x: 0, y: 0 }),
            forall|s: int|
                old(self).num_spec() <= s < final(self).num_spec() ==> (
                #[trigger] final(self).forces_seq()[s]) == (Vec2 { x: 0, y: 0 }),
            forall|s: int|
                old(self).num_spec() <= s < final(self).num_spec() ==> #[trigger] final(self).rho_seq()[s] == ONE,
            forall|s: int|
                old(self).num_spec() <= s < final(self).num_spec() ==> #[trigger] final(self).press_seq()[s] == 0,
            forall|s: int|
                old(self).num_spec() <= s < final(self).num_spec() ==> #[trigger] final(self).mass_seq()[s] == ONE,
            forall|s: int|
                old(self).num_spec() <= s < final(self).num_spec() ==> (
                #[trigger] final(self).pos_seq()[s]).y == seed_y(
                    s - old(self).num_spec(),
                    old(self).cfg_spec().h,
                ) && seed_x_base(s - old(self).num_spec(), old(self).cfg_spec().h) <= final(self).pos_seq()[s].x < seed_x_base(s - old(self).num_spec(), old(self).cfg_spec().h)
                    + ONE,
    {
        let h = self.cfg.h;
        let ghost num0 = self.num_particles as int;
        let rows_u: u64 = ((DAM_TOP - 1) as u64) / (h as u64);
        let cols_u: u64 = (((DAM_RIGHT - DAM_LEFT) as u64) / (h as u64)) + 1;
        proof {
            lemma_div_is_ordered_by_denominator(DAM_TOP as int - 1, 1048576, h as int);
            lemma_div_is_ordered_by_denominator(
                DAM_RIGHT as int - DAM_LEFT as int,
                1048576,
                h as int,
            );
            lemma_fundamental_div_mod_converse(671088639, 1048576, 639, 1048575);
            lemma_fundamental_div_mod_converse(671088640, 1048576, 640, 0);
            lemma_div_is_ordered(0, DAM_TOP as int - 1, h as int);
            lemma_div_is_ordered(0, DAM_RIGHT as int - DAM_LEFT as int, h as int);
            lemma_div_of0(h as int);
        }
        let rows = rows_u as usize;
        let cols = cols_u as usize;
        proof {
            assert(rows * cols <= 639 * 641) by (nonlinear_arith)
                requires
                    rows <= 639,
                    cols <= 641,
            ;
        }
        let avail = rows * cols;
        let rem = self.max_particles - self.num_particles;
        let budget = if dam_max_particles < rem {
            dam_max_particles
        } else {
            rem
        };
        let total = if avail < budget {
            avail
        } else {
            budget
        };
        let ghost hh = h as int;
        let mut t: usize = 0;
        while t < total
            invariant
                t <= total,
                self.wf(),
                self.width == old(self).width_spec(),
                self.height == old(self).height_spec(),
                self.max_particles == old(self).max_spec(),
                self.cfg == old(self).cfg_spec(),
                self.instances@ == old(self).inst_seq(),
                self.num_particles == num0 + t,
                num0 + total <= self.max_particles,
                forall|s: int|
                    0 <= s < num0 ==> #[trigger] self.position@[s] == old(self).pos_seq()[s],
                forall|s: int|
                    0 <= s < num0 ==> #[trigger] self.velocity@[s] == old(self).vel_seq()[s],
                forall|s: int|
                    0 <= s < num0 ==> #[trigger] self.forces@[s] == old(self).forces_seq()[s],
                forall|s: int| 0 <= s < num0 ==> #[trigger] self.rho@[s] == old(self).rho_seq()[s],
                forall|s: int|
                    0 <= s < num0 ==> #[trigger] self.pressure@[s] == old(self).press_seq()[s],
                forall|s: int|
                    0 <= s < num0 ==> #[trigger] self.mass@[s] == old(self).mass_seq()[s],
                forall|s: int|
                    num0 <= s < num0 + t ==> (#[trigger] self.velocity@[s]) == (Vec2 {
                        x: 0,
                        y: 0,
                    }),
                forall|s: int|
                    num0 <= s < num0 + t ==> (#[trigger] self.forces@[s]) == (Vec2 { x: 0, y: 0 }),
                forall|s: int| num0 <= s < num0 + t ==> #[trigger] self.rho@[s] == ONE,
                forall|s: int| num0 <= s < num0 + t ==> #[trigger] self.pressure@[s] == 0,
                forall|s: int| num0 <= s < num0 + t ==> #[trigger] self.mass@[s] == ONE,
                forall|s: int|
                    num0 <= s < num0 + t ==> (#[trigger] self.position@[s]).y == seed_y(s - num0, h)
                        && seed_x_base(s - num0, h) <= self.position@[s].x < seed_x_base(
                        s - num0,
                        h,
                    ) + ONE,
            decreases total - t,
        {
            let row = t / cols;
            let col = t % cols;
            proof {
                lemma_mod_bound(t as int, cols as int);
                lemma_div_nonincreasing(t as int, cols as int);
                assert((rows as int) * (cols as int) - 1 == (rows as int - 1) * (cols as int) + (
                cols as int - 1)) by (nonlinear_arith);
                lemma_fundamental_div_mod_converse(
                    (rows as int) * (cols as int) - 1,
                    cols as int,
                    rows as int - 1,
                    cols as int - 1,
                );
                lemma_div_is_ordered(t as int, (rows as int) * (cols as int) - 1, cols as int);
                lemma_div_is_ordered(0, t as int, cols as int);
                lemma_div_of0(cols as int);
                vstd::arithmetic::div_mod::lemma_fundamental_div_mod(
                    DAM_RIGHT as int - DAM_LEFT as int,
                    hh,
                );
                assert(hh * ((DAM_RIGHT as int - DAM_LEFT as int) / hh) == ((DAM_RIGHT as int
                    - DAM_LEFT as int) / hh) * hh) by (nonlinear_arith);
                assert((col as int + 1) * hh <= (cols as int) * hh && (cols as int) * hh == ((
                cols as int) - 1) * hh + hh) by (nonlinear_arith)
                    requires
                        (col as int) < cols as int,
                        0 < hh,
                ;
                assert(hh * (row as int + 2) == (row as int + 2) * hh) by (nonlinear_arith);
                assert(hh * (col as int + 1) == (col as int + 1) * hh) by (nonlinear_arith);
                vstd::arithmetic::div_mod::lemma_div_basics(hh * (row as int + 2));
                vstd::arithmetic::div_mod::lemma_div_basics(hh * (col as int + 1));
                assert((row as int + 2) * hh <= 641 * 67108864) by (nonlinear_arith)
                    requires
                        0 <= (row as int) <= 639,
                        0 < hh <= 67108864,
                ;
            }
            let y = fx_muldiv(h, (row as i64) + 2, 1);
            let xb = fx_add(DAM_LEFT, fx_muldiv(h, (col as i64) + 1, 1));
            let jit = jitter_raw();
            let x = fx_add(xb, jit);
            self.add_particle(x, y);
            t = t + 1;
        }
    }

    /// Seed the standard dam scene (at most 4096 particles).
    pub fn init(&mut self)
        requires
            old(self).wf(),
        ensures
            final(self).wf(),
            final(self).width_spec() == old(self).width_spec(),
            final(self).height_spec() == old(self).height_spec(),
            final(self).max_spec() == old(self).max_spec(),
            final(self).cfg_spec() == old(self).cfg_spec(),
            final(self).inst_seq() == old(self).inst_seq(),
            final(self).num_spec() == old(self).num_spec() + seed_count(
                old(self).num_spec() as int,
                old(self).max_spec() as int,
                4096,
                old(self).cfg_spec().h,
            ),
    {
        self.init_scene(4096);
    }

    /// Advance the simulation one step: density/pressure pass, force pass,
    /// integration with wall response, and the rebuilt instance buffer. The
    /// frame delta `dt` is a cadence signal only; integration advances by
    /// the configured `cfg.dt`.
    #[allow(unused_variables)]
    pub fn update(&mut self, dt: i64)
        requires
            old(self).wf(),
        ensures
            final(self).wf(),
            final(self).width_spec() == old(self).width_spec(),
            final(self).height_spec() == old(self).height_spec(),
            final(self).max_spec() == old(self).max_spec(),
            final(self).cfg_spec() == old(self).cfg_spec(),
            final(self).num_spec() == old(self).num_spec(),
            final(self).state() == sph_step(
                old(self).state(),
                old(self).cfg_spec(),
                old(self).width_spec(),
                old(self).height_spec(),
            ),
            forall|i: int|
                0 <= i < old(self).num_spec() ==> old(self).cfg_spec().h <= (
                #[trigger] final(self).pos_seq()[i]).x <= old(self).width_spec() - old(self).cfg_spec().h && old(self).cfg_spec().h <= final(self).pos_seq()[i].y <= old(self).height_spec() - old(self).cfg_spec().h,
    {
        let ghost st0 = self.state();
        let ghost cfg0 = self.cfg;
        let ghost rho1 = Seq::new(st0.rho.len(), |i: int| rho_of(st0.position, st0.mass, cfg0, i));
        let ghost press1 = Seq::new(st0.pressure.len(), |i: int| pressure_of(rho1[i], cfg0));
        self.compute_d_p();
        proof {
            assert forall|i: int| 0 <= i < rho1.len() implies self.rho@[i] == rho1[i] by {
                assert(self.rho_seq()[i] == rho_of(st0.position, st0.mass, cfg0, i));
            }
            assert forall|i: int| 0 <= i < press1.len() implies self.pressure@[i] == press1[i] by {
                assert(self.press_seq()[i] == pressure_of(
                    rho_of(st0.position, st0.mass, cfg0, i),
                    cfg0,
                ));
            }
            assert(self.rho@ =~= rho1);
            assert(self.pressure@ =~= press1);
        }
        let ghost forces2 = Seq::new(
            st0.forces.len(),
            |i: int| force_of(st0.position, st0.velocity, press1, rho1, st0.mass, cfg0, i),
        );
        self.compute_forces();
        proof {
            assert forall|i: int| 0 <= i < forces2.len() implies self.forces@[i] == forces2[i] by {
                assert(self.forces_seq()[i] == force_of(
                    st0.position,
                    st0.velocity,
                    press1,
                    rho1,
                    st0.mass,
                    cfg0,
                    i,
                ));
            }
            assert(self.forces@ =~= forces2);
        }
        let ghost moved = Seq::new(
            st0.position.len(),
            |i: int| integrate_particle(st0.position[i], st0.velocity[i], forces2[i], rho1[i], cfg0, self.width, self.height),
        );
        self.integrate(dt);
        proof {
            assert forall|i: int|
                0 <= i < moved.len() implies self.position@[i] == moved[i].0 && self.velocity@[i]
                == moved[i].1 by {
                assert(self.pos_seq()[i] == integrate_particle(
                    st0.position[i],
                    st0.velocity[i],
                    forces2[i],
                    rho1[i],
                    cfg0,
                    self.width,
                    self.height,
                ).0);
                assert(self.vel_seq()[i] == integrate_particle(
                    st0.position[i],
                    st0.velocity[i],
                    forces2[i],
                    rho1[i],
                    cfg0,
                    self.width,
                    self.height,
                ).1);
            }
        }
        self.update_instances();
        proof {
            let stepped = sph_step(st0, cfg0, old(self).width_spec(), old(self).height_spec());
            assert(self.position@ =~= stepped.position);
            assert(self.velocity@ =~= stepped.velocity);
            assert(self.instances@ =~= stepped.instances);
            assert(self.rho@ =~= stepped.rho);
            assert(self.pressure@ =~= stepped.pressure);
            assert(self.forces@ =~= stepped.forces);
            assert(self.mass@ =~= stepped.mass);
            assert(self.state() =~= stepped);
        }
    }

    /// Velocity of particle `k`.
    pub fn velocity_at(&self, k: usize) -> (r: Vec2)
        requires
            self.wf(),
            k < self.num_spec(),
        ensures
            r == self.vel_seq()[k as int],
    {
        self.velocity[k]
    }

    /// Force accumulated for particle `k` during the last step.
    pub fn force_at(&self, k: usize) -> (r: Vec2)
        requires
            self.wf(),
            k < self.num_spec(),
        ensures
            r == self.forces_seq()[k as int],
    {
        self.forces[k]
    }

    /// Density of particle `k`.
    pub fn rho_at(&self, k: usize) -> (r: i64)
        requires
            self.wf(),
            k < self.num_spec(),
        ensures
            r == self.rho_seq()[k as int],
    {
        self.rho[k]
    }

    /// Pressure of particle `k`.
    pub fn pressure_at(&self, k: usize) -> (r: i64)
        requires
            self.wf(),
            k < self.num_spec(),
        ensures
            r == self.press_seq()[k as int],
    {
        self.pressure[k]
    }

    /// Mass of particle `k`.
    pub fn mass_at(&self, k: usize) -> (r: i64)
        requires
            self.wf(),
            k < self.num_spec(),
        ensures
            r == self.mass_seq()[k as int],
    {
        self.mass[k]
    }

    /// The solver's configuration.
    pub fn config(&self) -> (r: SphConfig)
        ensures
            r == self.cfg_spec(),
    {
        self.cfg
    }
}

} // verus!
