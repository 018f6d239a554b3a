//! Grid-based incompressible Euler solver on a staggered (MAC) grid.
//!
//! The solver owns a 2D velocity/pressure/smoke field over a `width x height`
//! grid that already includes a one-cell solid border on every side. Each
//! `update` injects smoke at a fixed inlet band, clears the pressure field,
//! runs a fixed number of over-relaxed Gauss-Seidel projection sweeps,
//! extrapolates border velocities, advects velocity and smoke
//! semi-Lagrangially, and recolors the renderable instance buffer from
//! pressure and smoke.
//!
//! Physics arrays are indexed column-major (`i * height + j`); the
//! colorization pass addresses the instance buffer and the pressure/smoke
//! arrays through the flat index `y * width + x`, which enumerates the same
//! flat range in a different order. That addressing difference is an
//! observable quirk of the solver and is kept as is.

use crate::fixed::{
    all_fits, all_in_unit, clip, fits, fx_add, fx_bilerp, fx_clamp01, fx_max0, fx_mul, fx_muldiv,
    fx_div, fx_sub, lemma_bilerp_in_range, lemma_tdiv_bound, s_add, s_bilerp, s_clamp01, s_div, s_max0, s_mul, s_muldiv,
    s_sub, tdiv, HALF, LIM, ONE, QUARTER,
};
use crate::instance::Instance;
use vstd::arithmetic::div_mod::{lemma_div_is_ordered, lemma_div_of0, lemma_fundamental_div_mod_converse, lemma_mod_bound};
use vstd::prelude::*;

verus! {

/// Number of Gauss-Seidel sweeps run by every projection.
pub const NUM_SWEEPS: usize = 20;

/// Initial rightward inlet velocity written by `init` into column 1.
pub const INLET_U: i64 = 10 * ONE;

/// Largest padded grid dimension the solver accepts.
pub const MAX_DIM: usize = 1024;

/// Largest accepted grid spacing (64 length units).
pub const MAX_SPACING: i64 = 64 * ONE;

/// Offset subtracted from the pressure range's top before colorization
/// (about 0.01, as close as the fixed-point scale allows).
pub const COLOR_MARGIN: i64 = 10485;

/// Which staggered field a continuous-coordinate sample reads.
pub enum FieldType {
    UField,
    VField,
    SField,
}

/// The three fields mutated by the incompressibility projection.
#[verifier::ext_equal]
pub ghost struct GridFields {
    pub u: Seq<i64>,
    pub v: Seq<i64>,
    pub pressure: Seq<i64>,
}

/// Everything `update` transforms, as one value.
#[verifier::ext_equal]
pub ghost struct GridState {
    pub u: Seq<i64>,
    pub v: Seq<i64>,
    pub pressure: Seq<i64>,
    pub smoke: Seq<i64>,
    pub instances: Seq<Instance>,
}

pub open spec fn zero_seq(n: int) -> Seq<i64> {
    Seq::new(n as nat, |k: int| 0i64)
}

/// A border cell of the padded grid: left column, bottom row, top row.
/// The right column is deliberately open (outflow), as in the solver's
/// fixed scene.
pub open spec fn cell_is_border(i: int, j: int, h: int) -> bool {
    i == 0 || j == 0 || j == h - 1
}

/// The fixed rectangular obstacle of the solver's scene.
pub open spec fn cell_in_obstacle(i: int, j: int) -> bool {
    51 < i < 69 && 40 < j < 60
}

pub open spec fn cell_is_fluid(i: int, j: int, h: int) -> bool {
    !cell_is_border(i, j, h) && !cell_in_obstacle(i, j)
}

/// The fluid mask `init` establishes.
pub open spec fn init_fluid(w: int, h: int) -> Seq<bool> {
    Seq::new((w * h) as nat, |k: int| cell_is_fluid(k / h, k % h, h))
}

/// The horizontal velocity after `init`: the inlet column of fluid cells
/// gets `INLET_U`, everything else keeps its prior value.
pub open spec fn init_u(u0: Seq<i64>, h: int) -> Seq<i64> {
    Seq::new(u0.len(), |k: int| if k / h == 1 && cell_is_fluid(1, k % h, h) {
        INLET_U
    } else {
        u0[k]
    })
}

/// The renderable instance seeded for grid position `(xi, yi)`: the cell
/// position shifted by `(-1, -1)` to compensate the border padding, colored
/// white.
pub open spec fn init_instance(xi: int, yi: int) -> Instance {
    Instance {
        position: (((xi - 1) * ONE) as i64, ((yi - 1) * ONE) as i64, 0),
        color: (ONE, ONE, ONE),
    }
}

/// Flat-index arithmetic for the column-major law `k == i * h + j`.
pub proof fn lemma_grid_index(i: int, j: int, w: int, h: int)
    requires
        0 <= i < w,
        0 <= j < h,
        0 < h,
    ensures
        0 <= i * h + j < w * h,
        (i * h + j) / h == i,
        (i * h + j) % h == j,
{
    lemma_fundamental_div_mod_converse(i * h + j, h, i, j);
    assert(0 <= i * h + j < w * h) by (nonlinear_arith)
        requires
            0 <= i < w,
            0 <= j < h,
            0 < h,
    ;
}

/// Every flat index of the grid names a row below `w`.
pub proof fn lemma_row_of_flat_index(w: int, h: int)
    requires
        0 < w,
        0 < h,
    ensures
        forall|k: int|
            0 <= k < w * h ==> 0 <= #[trigger] (k / h) < w && 0 <= k % h < h && k == (k / h) * h
                + k % h,
{
    assert forall|k: int|
        0 <= k < w * h implies 0 <= #[trigger] (k / h) < w && 0 <= k % h < h && k == (k / h) * h
        + k % h by {
        assert(w * h - 1 == (w - 1) * h + (h - 1)) by (nonlinear_arith);
        lemma_fundamental_div_mod_converse(w * h - 1, h, w - 1, h - 1);
        lemma_div_is_ordered(0, k, h);
        lemma_div_is_ordered(k, w * h - 1, h);
        lemma_div_of0(h);
        lemma_mod_bound(k, h);
        vstd::arithmetic::div_mod::lemma_fundamental_div_mod(k, h);
    }
}

/// Velocity divergence of cell `k`: net outflow through its four faces,
/// `u[i+1,j] - u[i,j] + v[i,j+1] - v[i,j]`.
pub open spec fn s_div_cell(u: Seq<i64>, v: Seq<i64>, h: int, k: int) -> i64 {
    s_sub(s_add(s_sub(u[k + h], u[k]), v[k + 1]), v[k])
}

/// The over-relaxed correction for a cell with divergence `div` and `s`
/// fluid neighbors: `-(div / s) * 1.9`, computed as one rational
/// `-19 * div / (10 * s)` so it truncates once.
pub open spec fn s_relax(div: i64, s: int) -> i64 {
    clip(tdiv(-19 * div, 10 * s)) as i64
}

/// Pressure scale `density * spacing / dt` applied to each correction.
pub open spec fn cp_of(density: i64, spacing: i64, dt: i64) -> i64 {
    s_muldiv(density, spacing, dt)
}

/// One Gauss-Seidel relaxation of cell `(i, j)`: solid and fully enclosed
/// cells are skipped; otherwise the correction is accumulated into the
/// cell's pressure and redistributed into the staggered velocity samples
/// whose neighboring cell is fluid. Faces shared with a solid cell are left
/// untouched.
pub open spec fn relax_cell(
    f: GridFields,
    fluid: Seq<bool>,
    h: int,
    cp: i64,
    i: int,
    j: int,
) -> GridFields {
    let k = i * h + j;
    if !fluid[k] {
        f
    } else {
        let fx0 = fluid[k - h];
        let fx1 = fluid[k + h];
        let fy0 = fluid[k - 1];
        let fy1 = fluid[k + 1];
        let s = (if fx0 {
            1int
        } else {
            0int
        }) + (if fx1 {
            1int
        } else {
            0int
        }) + (if fy0 {
            1int
        } else {
            0int
        }) + (if fy1 {
            1int
        } else {
            0int
        });
        if s == 0 {
            f
        } else {
            let div = s_div_cell(f.u, f.v, h, k);
            let p = s_relax(div, s);
            let pr = f.pressure.update(k, s_add(f.pressure[k], s_mul(cp, p)));
            let u1 = if fx0 {
                f.u.update(k, s_sub(f.u[k], p))
            } else {
                f.u
            };
            let u2 = if fx1 {
                u1.update(k + h, s_add(u1[k + h], p))
            } else {
                u1
            };
            let v1 = if fy0 {
                f.v.update(k, s_sub(f.v[k], p))
            } else {
                f.v
            };
            let v2 = if fy1 {
                v1.update(k + 1, s_add(v1[k + 1], p))
            } else {
                v1
            };
            (GridFields { u: u2, v: v2, pressure: pr })
        }
    }
}

/// Relax the first `t` interior cells of a sweep, in row-major interior
/// order (`i` outer from 1, `j` inner from 1).
pub open spec fn relax_upto(
    f: GridFields,
    fluid: Seq<bool>,
    w: int,
    h: int,
    cp: i64,
    t: int,
) -> GridFields
    decreases t,
{
    if t <= 0 {
        f
    } else {
        let t1 = t - 1;
        relax_cell(
            relax_upto(f, fluid, w, h, cp, t1),
            fluid,
            h,
            cp,
            1 + t1 / (h - 2),
            1 + t1 % (h - 2),
        )
    }
}

/// One full Gauss-Seidel sweep over every interior cell.
pub open spec fn sweep(f: GridFields, fluid: Seq<bool>, w: int, h: int, cp: i64) -> GridFields {
    relax_upto(f, fluid, w, h, cp, (w - 2) * (h - 2))
}

/// `iters` successive sweeps.
pub open spec fn project(
    f: GridFields,
    fluid: Seq<bool>,
    w: int,
    h: int,
    cp: i64,
    iters: int,
) -> GridFields
    decreases iters,
{
    if iters <= 0 {
        f
    } else {
        sweep(project(f, fluid, w, h, cp, iters - 1), fluid, w, h, cp)
    }
}

/// Copy each row's first and last interior `u` sample into that row's
/// border cells, so samples taken near the domain edge read fresh values.
pub open spec fn extrapolate_u(u: Seq<i64>, h: int) -> Seq<i64> {
    Seq::new(u.len(), |k: int| if k % h == 0 {
        u[k + 1]
    } else if k % h == h - 1 {
        u[k - 1]
    } else {
        u[k]
    })
}

/// Copy the first and last interior columns of `v` into the border columns.
pub open spec fn extrapolate_v(v: Seq<i64>, w: int, h: int) -> Seq<i64> {
    Seq::new(v.len(), |k: int| if k < h {
        v[k + h]
    } else if k >= (w - 1) * h {
        v[k - h]
    } else {
        v[k]
    })
}

/// Average of the four `u` samples around the `v` sample at `(i, j)`.
pub open spec fn s_avg_u(u: Seq<i64>, h: int, i: int, j: int) -> i64 {
    s_muldiv(
        s_add(s_add(s_add(u[i * h + j - 1], u[i * h + j]), u[(i + 1) * h + j - 1]), u[(i + 1) * h + j]),
        1,
        4,
    )
}

/// Average of the four `v` samples around the `u` sample at `(i, j)`.
pub open spec fn s_avg_v(v: Seq<i64>, h: int, i: int, j: int) -> i64 {
    s_muldiv(
        s_add(s_add(s_add(v[(i - 1) * h + j], v[i * h + j]), v[(i - 1) * h + j + 1]), v[i * h + j + 1]),
        1,
        4,
    )
}

/// Base cell index of a continuous coordinate: truncated division by the
/// spacing, clamped into `[0, max]`.
pub open spec fn s_cell(xs: i64, sp: i64, max: int) -> int {
    if xs <= 0 {
        0
    } else if (xs as int) / (sp as int) > max {
        max
    } else {
        (xs as int) / (sp as int)
    }
}

/// Fractional offset of `xs` within cell `x0`, clamped into `[0, ONE]`.
pub open spec fn s_frac(xs: i64, x0: int, sp: i64) -> i64 {
    s_clamp01(s_muldiv(s_sub(xs, clip(x0 * sp) as i64), ONE, sp))
}

/// Bilinear sample of field `f` at continuous position `(x, y)`, where
/// `(dx, dy)` is the half-cell staggering offset of the field's samples.
pub open spec fn s_sample(
    f: Seq<i64>,
    w: int,
    h: int,
    sp: i64,
    x: i64,
    y: i64,
    dx: i64,
    dy: i64,
) -> i64 {
    let xs = s_sub(x, dx);
    let ys = s_sub(y, dy);
    let x0 = s_cell(xs, sp, w - 1);
    let x1 = if x0 + 1 <= w - 1 {
        x0 + 1
    } else {
        w - 1
    };
    let y0 = s_cell(ys, sp, h - 1);
    let y1 = if y0 + 1 <= h - 1 {
        y0 + 1
    } else {
        h - 1
    };
    let tx = s_frac(xs, x0, sp);
    let ty = s_frac(ys, y0, sp);
    s_bilerp(f[x0 * h + y0], f[x1 * h + y0], f[x1 * h + y1], f[x0 * h + y1], tx, ty)
}

/// Position of grid line `idx` in continuous coordinates.
pub open spec fn s_pos(idx: int, sp: i64) -> i64 {
    clip(idx * sp) as i64
}

/// Semi-Lagrangian advection of `u`: every `u` sample between two fluid
/// cells is backtraced by `dt` along the local velocity and resampled from
/// the pre-advection field; all other samples keep their value.
pub open spec fn advected_u(
    u: Seq<i64>,
    v: Seq<i64>,
    fluid: Seq<bool>,
    w: int,
    h: int,
    sp: i64,
    dt: i64,
) -> Seq<i64> {
    Seq::new(u.len(), |k: int| {
        let i = k / h;
        let j = k % h;
        if 1 <= i && 1 <= j < h - 1 && fluid[k] && fluid[k - h] {
            let half = s_muldiv(sp, 1, 2);
            let x = s_sub(s_pos(i, sp), s_mul(dt, u[k]));
            let y = s_sub(s_add(s_pos(j, sp), half), s_mul(dt, s_avg_v(v, h, i, j)));
            s_sample(u, w, h, sp, x, y, 0, half)
        } else {
            u[k]
        }
    })
}

/// Semi-Lagrangian advection of `v`, symmetric to `advected_u`.
pub open spec fn advected_v(
    u: Seq<i64>,
    v: Seq<i64>,
    fluid: Seq<bool>,
    w: int,
    h: int,
    sp: i64,
    dt: i64,
) -> Seq<i64> {
    Seq::new(v.len(), |k: int| {
        let i = k / h;
        let j = k % h;
        if 1 <= i < w - 1 && 1 <= j && fluid[k] && fluid[k - 1] {
            let half = s_muldiv(sp, 1, 2);
            let x = s_sub(s_add(s_pos(i, sp), half), s_mul(dt, s_avg_u(u, h, i, j)));
            let y = s_sub(s_pos(j, sp), s_mul(dt, v[k]));
            s_sample(v, w, h, sp, x, y, half, 0)
        } else {
            v[k]
        }
    })
}

/// Semi-Lagrangian advection of the smoke scalar at cell centers, using the
/// cell-centered average of the staggered velocity.
pub open spec fn advected_smoke(
    smoke: Seq<i64>,
    u: Seq<i64>,
    v: Seq<i64>,
    fluid: Seq<bool>,
    w: int,
    h: int,
    sp: i64,
    dt: i64,
) -> Seq<i64> {
    Seq::new(smoke.len(), |k: int| {
        let i = k / h;
        let j = k % h;
        if i < w - 1 && j < h - 1 && fluid[k] {
            let half = s_muldiv(sp, 1, 2);
            let uc = s_muldiv(s_add(u[k], u[k + h]), 1, 2);
            let vc = s_muldiv(s_add(v[k], v[k + 1]), 1, 2);
            let x = s_sub(s_add(s_pos(i, sp), half), s_mul(dt, uc));
            let y = s_sub(s_add(s_pos(j, sp), half), s_mul(dt, vc));
            s_sample(smoke, w, h, sp, x, y, half, half)
        } else {
            smoke[k]
        }
    })
}

/// A bilinear sample of a unit-interval field stays in the unit interval:
/// the four blend weights are non-negative and sum to one.
pub proof fn lemma_sample_in_unit(
    f: Seq<i64>,
    w: int,
    h: int,
    sp: i64,
    x: i64,
    y: i64,
    dx: i64,
    dy: i64,
)
    requires
        all_in_unit(f),
        f.len() == w * h,
        0 < w,
        0 < h,
        0 < sp,
    ensures
        0 <= s_sample(f, w, h, sp, x, y, dx, dy) <= ONE,
{
    let xs = s_sub(x, dx);
    let ys = s_sub(y, dy);
    let x0 = s_cell(xs, sp, w - 1);
    let x1 = if x0 + 1 <= w - 1 {
        x0 + 1
    } else {
        w - 1
    };
    let y0 = s_cell(ys, sp, h - 1);
    let y1 = if y0 + 1 <= h - 1 {
        y0 + 1
    } else {
        h - 1
    };
    if xs > 0 {
        lemma_div_is_ordered(0, xs as int, sp as int);
        lemma_div_of0(sp as int);
    }
    if ys > 0 {
        lemma_div_is_ordered(0, ys as int, sp as int);
        lemma_div_of0(sp as int);
    }
    lemma_grid_index(x0, y0, w, h);
    lemma_grid_index(x1, y0, w, h);
    lemma_grid_index(x1, y1, w, h);
    lemma_grid_index(x0, y1, w, h);
    lemma_bilerp_in_range(
        f[x0 * h + y0],
        f[x1 * h + y0],
        f[x1 * h + y1],
        f[x0 * h + y1],
        s_frac(xs, x0, sp),
        s_frac(ys, y0, sp),
        ONE,
    );
}

/// Smoke re-injected each step at the fixed inlet band in column 1.
pub open spec fn inject_spec(smoke: Seq<i64>, h: int) -> Seq<i64> {
    Seq::new(smoke.len(), |k: int| if k / h == 1 && 41 < k % h < 60 {
        ONE
    } else {
        smoke[k]
    })
}

/// Smallest element of a field (`LIM` when the field is empty).
pub open spec fn seq_min(s: Seq<i64>) -> i64
    decreases s.len(),
{
    if s.len() == 0 {
        LIM
    } else {
        let m = seq_min(s.drop_last());
        if s.last() < m {
            s.last()
        } else {
            m
        }
    }
}

/// Largest element of a field (`-LIM` when the field is empty).
pub open spec fn seq_max(s: Seq<i64>) -> i64
    decreases s.len(),
{
    if s.len() == 0 {
        (-LIM) as i64
    } else {
        let m = seq_max(s.drop_last());
        if s.last() > m {
            s.last()
        } else {
            m
        }
    }
}

/// Four-band rainbow ramp (blue, cyan, green, yellow) over a value
/// normalized into `[minv, maxv]`; a degenerate range maps to the midpoint,
/// and a value below the range maps to black.
pub open spec fn color_spec(val: i64, minv: i64, maxv: i64) -> (i64, i64, i64) {
    let lo = if val < minv {
        minv
    } else {
        val
    };
    let cap = s_sub(maxv, COLOR_MARGIN);
    let v2 = if lo > cap {
        cap
    } else {
        lo
    };
    let d = s_sub(maxv, minv);
    let t = if d == 0 {
        HALF
    } else {
        s_div(s_sub(v2, minv), d)
    };
    if t < 0 {
        (0, 0, 0)
    } else {
        let band = tdiv(t as int, QUARTER as int);
        let s = s_muldiv(s_sub(t, clip(band * QUARTER) as i64), ONE, QUARTER);
        if band == 0 {
            (0, s, ONE)
        } else if band == 1 {
            (0, ONE, s_sub(ONE, s))
        } else if band == 2 {
            (s, ONE, 0)
        } else if band == 3 {
            (ONE, s_sub(ONE, s), 0)
        } else {
            (0, 0, 0)
        }
    }
}

/// The instance buffer recolored from pressure and smoke: entry `k` keeps
/// its position and takes the ramp color for `pressure[k]`, modulated by
/// `smoke[k]` and clamped non-negative.
pub open spec fn colorize(
    instances: Seq<Instance>,
    pressure: Seq<i64>,
    smoke: Seq<i64>,
) -> Seq<Instance> {
    let minv = seq_min(pressure);
    let maxv = seq_max(pressure);
    Seq::new(instances.len(), |k: int| {
        let c = color_spec(pressure[k], minv, maxv);
        Instance {
            position: instances[k].position,
            color: (
                s_max0(s_mul(c.0, smoke[k])),
                s_max0(s_mul(c.1, smoke[k])),
                s_max0(s_mul(c.2, smoke[k])),
            ),
        }
    })
}

/// One whole solver step, as a function of the previous state.
pub open spec fn euler_step(
    st: GridState,
    fluid: Seq<bool>,
    w: int,
    h: int,
    density: i64,
    sp: i64,
    dt: i64,
) -> GridState {
    let smoke1 = inject_spec(st.smoke, h);
    let f2 = project(
        (GridFields { u: st.u, v: st.v, pressure: zero_seq(st.pressure.len() as int) }),
        fluid,
        w,
        h,
        cp_of(density, sp, dt),
        NUM_SWEEPS as int,
    );
    let u3 = extrapolate_u(f2.u, h);
    let v3 = extrapolate_v(f2.v, w, h);
    let u4 = advected_u(u3, v3, fluid, w, h, sp, dt);
    let v4 = advected_v(u3, v3, fluid, w, h, sp, dt);
    let smoke5 = advected_smoke(smoke1, u4, v4, fluid, w, h, sp, dt);
    GridState {
        u: u4,
        v: v4,
        pressure: f2.pressure,
        smoke: smoke5,
        instances: colorize(st.instances, f2.pressure, smoke5),
    }
}

/// Sequence lengths are preserved by every relaxation prefix.
proof fn lemma_relax_upto_len(f: GridFields, fluid: Seq<bool>, w: int, h: int, cp: i64, t: int)
    requires
        3 <= w,
        3 <= h,
        f.u.len() == w * h,
        f.v.len() == w * h,
        f.pressure.len() == w * h,
        t <= (w - 2) * (h - 2),
    ensures
        relax_upto(f, fluid, w, h, cp, t).u.len() == f.u.len(),
        relax_upto(f, fluid, w, h, cp, t).v.len() == f.v.len(),
        relax_upto(f, fluid, w, h, cp, t).pressure.len() == f.pressure.len(),
    decreases t,
{
    if t > 0 {
        lemma_relax_upto_len(f, fluid, w, h, cp, t - 1);
        let t1 = t - 1;
        let g = relax_upto(f, fluid, w, h, cp, t1);
        let i = 1 + t1 / (h - 2);
        let j = 1 + t1 % (h - 2);
        lemma_sweep_cell_bounds(w, h, t1);
        lemma_grid_index(i, j, w, h);
        lemma_grid_index(i + 1, j, w, h);
        lemma_grid_index(i, j + 1, w, h);
        assert(i * h + j + h == (i + 1) * h + j && i * h + j + 1 == i * h + (j
            + 1)) by (nonlinear_arith);
        assert(relax_upto(f, fluid, w, h, cp, t) == relax_cell(g, fluid, h, cp, i, j));
    }
}

/// The interior cell relaxed at step `t` of a sweep lies in
/// `[1, w-2] x [1, h-2]`.
proof fn lemma_sweep_cell_bounds(w: int, h: int, t1: int)
    requires
        3 <= w,
        3 <= h,
        0 <= t1 < (w - 2) * (h - 2),
    ensures
        1 <= 1 + t1 / (h - 2) <= w - 2,
        1 <= 1 + t1 % (h - 2) <= h - 2,
{
    lemma_mod_bound(t1, h - 2);
    lemma_div_is_ordered(0, t1, h - 2);
    lemma_div_of0(h - 2);
    assert((w - 2) * (h - 2) - 1 == (w - 3) * (h - 2) + (h - 3)) by (nonlinear_arith);
    lemma_fundamental_div_mod_converse((w - 2) * (h - 2) - 1, h - 2, w - 3, h - 3);
    lemma_div_is_ordered(t1, (w - 2) * (h - 2) - 1, h - 2);
}

/// No prefix of a sweep changes a velocity sample on a face that touches a
/// solid cell.
proof fn lemma_relax_upto_solid_faces(
    f: GridFields,
    fluid: Seq<bool>,
    w: int,
    h: int,
    cp: i64,
    t: int,
)
    requires
        3 <= w,
        3 <= h,
        f.u.len() == w * h,
        f.v.len() == w * h,
        f.pressure.len() == w * h,
        fluid.len() == w * h,
        t <= (w - 2) * (h - 2),
    ensures
        forall|k: int|
            0 <= k < w * h && !(h <= k && fluid[k] && fluid[k - h]) ==> relax_upto(
                f,
                fluid,
                w,
                h,
                cp,
                t,
            ).u[k] == f.u[k],
        forall|k: int|
            0 <= k < w * h && !(1 <= k % h && fluid[k] && fluid[k - 1]) ==> relax_upto(
                f,
                fluid,
                w,
                h,
                cp,
                t,
            ).v[k] == f.v[k],
    decreases t,
{
    if t > 0 {
        lemma_relax_upto_solid_faces(f, fluid, w, h, cp, t - 1);
        lemma_relax_upto_len(f, fluid, w, h, cp, t - 1);
        let t1 = t - 1;
        let i = 1 + t1 / (h - 2);
        let j = 1 + t1 % (h - 2);
        lemma_sweep_cell_bounds(w, h, t1);
        lemma_grid_index(i, j, w, h);
        lemma_grid_index(i - 1, j, w, h);
        lemma_grid_index(i + 1, j, w, h);
        lemma_grid_index(i, j + 1, w, h);
        let g = relax_upto(f, fluid, w, h, cp, t1);
        let k0 = i * h + j;
        assert(k0 - h == (i - 1) * h + j && k0 + h == (i + 1) * h + j && k0 + 1 == i * h + (j
            + 1)) by (nonlinear_arith)
            requires
                k0 == i * h + j,
        ;
        assert forall|k: int|
            0 <= k < w * h && !(h <= k && fluid[k] && fluid[k - h]) implies relax_cell(
            g,
            fluid,
            h,
            cp,
            i,
            j,
        ).u[k] == g.u[k] by {
            lemma_mod_bound(k, h);
        }
        assert forall|k: int|
            0 <= k < w * h && !(1 <= k % h && fluid[k] && fluid[k - 1]) implies relax_cell(
            g,
            fluid,
            h,
            cp,
            i,
            j,
        ).v[k] == g.v[k] by {
            lemma_mod_bound(k, h);
        }
    }
}

/// Boundary impermeability of the projection: however many sweeps run, a
/// velocity sample on a face incident to a solid cell is never changed, so
/// the projection contributes exactly zero flow into any solid cell. The
/// `u` sample of cell `(i, j)` sits between cells `(i-1, j)` and `(i, j)`;
/// the `v` sample between `(i, j-1)` and `(i, j)`.
pub proof fn lemma_projection_boundary_impermeability(
    f: GridFields,
    fluid: Seq<bool>,
    w: int,
    h: int,
    cp: i64,
    iters: int,
)
    requires
        3 <= w,
        3 <= h,
        f.u.len() == w * h,
        f.v.len() == w * h,
        f.pressure.len() == w * h,
        fluid.len() == w * h,
    ensures
        forall|k: int|
            0 <= k < w * h && !(h <= k && fluid[k] && fluid[k - h]) ==> project(
                f,
                fluid,
                w,
                h,
                cp,
                iters,
            ).u[k] == f.u[k],
        forall|k: int|
            0 <= k < w * h && !(1 <= k % h && fluid[k] && fluid[k - 1]) ==> project(
                f,
                fluid,
                w,
                h,
                cp,
                iters,
            ).v[k] == f.v[k],
    decreases (if iters <= 0 {
        0int
    } else {
        iters
    }),
{
    if iters > 0 {
        lemma_projection_boundary_impermeability(f, fluid, w, h, cp, iters - 1);
        let g = project(f, fluid, w, h, cp, iters - 1);
        lemma_project_len(f, fluid, w, h, cp, iters - 1);
        lemma_relax_upto_solid_faces(g, fluid, w, h, cp, (w - 2) * (h - 2));
    }
}

/// Sequence lengths are preserved by the whole projection.
proof fn lemma_project_len(f: GridFields, fluid: Seq<bool>, w: int, h: int, cp: i64, iters: int)
    requires
        3 <= w,
        3 <= h,
        f.u.len() == w * h,
        f.v.len() == w * h,
        f.pressure.len() == w * h,
    ensures
        project(f, fluid, w, h, cp, iters).u.len() == f.u.len(),
        project(f, fluid, w, h, cp, iters).v.len() == f.v.len(),
        project(f, fluid, w, h, cp, iters).pressure.len() == f.pressure.len(),
    decreases (if iters <= 0 {
        0int
    } else {
        iters
    }),
{
    if iters > 0 {
        lemma_project_len(f, fluid, w, h, cp, iters - 1);
        lemma_relax_upto_len(
            project(f, fluid, w, h, cp, iters - 1),
            fluid,
            w,
            h,
            cp,
            (w - 2) * (h - 2),
        );
    }
}

/// One over-relaxed Gauss-Seidel visit drives a cell's divergence toward
/// zero: for an interior cell whose four neighbors are all fluid (and whose
/// face velocities are far from saturation), the relaxed divergence `after`
/// satisfies `10 * after + 9 * before ∈ [-39, 39]` — it flips sign and
/// shrinks to about a tenth of its magnitude, up to the one rounding the
/// correction truncates away.
pub proof fn lemma_relax_reduces_interior_divergence(
    f: GridFields,
    fluid: Seq<bool>,
    w: int,
    h: int,
    cp: i64,
    i: int,
    j: int,
)
    requires
        3 <= w,
        3 <= h,
        f.u.len() == w * h,
        f.v.len() == w * h,
        f.pressure.len() == w * h,
        fluid.len() == w * h,
        1 <= i < w - 1,
        1 <= j < h - 1,
        fluid[i * h + j],
        fluid[(i - 1) * h + j],
        fluid[(i + 1) * h + j],
        fluid[i * h + j - 1],
        fluid[i * h + j + 1],
        -(LIM as int) / 16 <= f.u[i * h + j] <= (LIM as int) / 16,
        -(LIM as int) / 16 <= f.u[(i + 1) * h + j] <= (LIM as int) / 16,
        -(LIM as int) / 16 <= f.v[i * h + j] <= (LIM as int) / 16,
        -(LIM as int) / 16 <= f.v[i * h + j + 1] <= (LIM as int) / 16,
    ensures
        ({
            let k = i * h + j;
            let g = relax_cell(f, fluid, h, cp, i, j);
            let before = s_div_cell(f.u, f.v, h, k) as int;
            let after = s_div_cell(g.u, g.v, h, k) as int;
            -39 <= 10 * after + 9 * before <= 39
        }),
{
    let k = i * h + j;
    lemma_grid_index(i, j, w, h);
    lemma_grid_index(i - 1, j, w, h);
    lemma_grid_index(i + 1, j, w, h);
    lemma_grid_index(i, j - 1, w, h);
    lemma_grid_index(i, j + 1, w, h);
    assert(k - h == (i - 1) * h + j && k + h == (i + 1) * h + j) by (nonlinear_arith)
        requires
            k == i * h + j,
    ;
    let div = s_div_cell(f.u, f.v, h, k);
    let divi = div as int;
    let p = s_relax(div, 4);
    if divi >= 0 {
        vstd::arithmetic::div_mod::lemma_fundamental_div_mod(19 * divi, 40);
        lemma_mod_bound(19 * divi, 40);
        lemma_div_is_ordered(0, 19 * divi, 40);
        lemma_div_of0(40);
        lemma_tdiv_bound(19 * divi, divi, 40);
        assert(p as int == -((19 * divi) / 40));
    } else {
        vstd::arithmetic::div_mod::lemma_fundamental_div_mod(-19 * divi, 40);
        lemma_mod_bound(-19 * divi, 40);
        lemma_div_is_ordered(0, -19 * divi, 40);
        lemma_div_of0(40);
        lemma_tdiv_bound(-19 * divi, -divi, 40);
        assert(p as int == (-19 * divi) / 40);
    }
    let g = relax_cell(f, fluid, h, cp, i, j);
    assert(g.u[k] as int == f.u[k] - p && g.u[k + h] as int == f.u[k + h] + p && g.v[k] as int
        == f.v[k] - p && g.v[k + 1] as int == f.v[k + 1] + p);
    assert(s_div_cell(g.u, g.v, h, k) as int == divi + 4 * (p as int));
}

/// Determinism: one grid step is a pure function of the previous state and
/// the time step — no hidden input enters it — so two solvers in equal
/// states stepped with the same `dt` remain equal.
pub proof fn lemma_euler_step_deterministic(
    a: GridState,
    b: GridState,
    fluid: Seq<bool>,
    w: int,
    h: int,
    density: i64,
    sp: i64,
    dt: i64,
)
    requires
        a == b,
    ensures
        euler_step(a, fluid, w, h, density, sp, dt) == euler_step(b, fluid, w, h, density, sp, dt),
{
}

pub struct EulerSimulation {
    /// Fluid density entering the pressure update.
    pub density: i64,
    /// Padded grid width (logical width plus the two border columns).
    pub width: usize,
    /// Padded grid height.
    pub height: usize,
    /// `width * height`.
    pub cells_num: usize,
    /// One renderable point per cell; colors are rewritten every step.
    pub instances: Vec<Instance>,
    u: Vec<i64>,
    v: Vec<i64>,
    pressure: Vec<i64>,
    fluid: Vec<bool>,
    smoke: Vec<i64>,
    spacing: i64,
}

impl EulerSimulation {
    pub closed spec fn width_spec(&self) -> usize {
        self.width
    }

    pub closed spec fn height_spec(&self) -> usize {
        self.height
    }

    pub closed spec fn cells_spec(&self) -> usize {
        self.cells_num
    }

    pub closed spec fn density_spec(&self) -> i64 {
        self.density
    }

    pub closed spec fn instances_seq(&self) -> Seq<Instance> {
        self.instances@
    }

    pub closed spec fn u_seq(&self) -> Seq<i64> {
        self.u@
    }

    pub closed spec fn v_seq(&self) -> Seq<i64> {
        self.v@
    }

    pub closed spec fn pressure_seq(&self) -> Seq<i64> {
        self.pressure@
    }

    pub closed spec fn smoke_seq(&self) -> Seq<i64> {
        self.smoke@
    }

    /// `true` marks a fluid cell, `false` a solid one.
    pub closed spec fn fluid_seq(&self) -> Seq<bool> {
        self.fluid@
    }

    pub closed spec fn spacing_spec(&self) -> i64 {
        self.spacing
    }

    pub closed spec fn fields(&self) -> GridFields {
        GridFields { u: self.u@, v: self.v@, pressure: self.pressure@ }
    }

    pub closed spec fn state(&self) -> GridState {
        GridState {
            u: self.u@,
            v: self.v@,
            pressure: self.pressure@,
            smoke: self.smoke@,
            instances: self.instances@,
        }
    }

    pub closed spec fn wf(&self) -> bool {
        &&& 3 <= self.width <= MAX_DIM
        &&& 3 <= self.height <= MAX_DIM
        &&& self.cells_num == self.width * self.height
        &&& self.u@.len() == self.cells_num
        &&& self.v@.len() == self.cells_num
        &&& self.pressure@.len() == self.cells_num
        &&& self.fluid@.len() == self.cells_num
        &&& self.smoke@.len() == self.cells_num
        &&& self.instances@.len() == self.cells_num
        &&& 0 < self.spacing <= MAX_SPACING
        &&& fits(self.density as int)
        &&& all_fits(self.u@)
        &&& all_fits(self.v@)
        &&& all_fits(self.pressure@)
        &&& all_in_unit(self.smoke@)
    }

    /// Allocate a solver for a `width x height` logical domain; the stored
    /// grid is padded by one border cell on every side. All fields start at
    /// zero, every cell starts solid (until `init`), and one white instance
    /// is seeded per cell.
    #[verifier::loop_isolation(false)]
    pub fn new(density: i64, width: usize, height: usize, spacing: i64) -> (r: Self)
        requires
            fits(density as int),
            0 < spacing <= MAX_SPACING,
            1 <= width <= MAX_DIM - 2,
            1 <= height <= MAX_DIM - 2,
        ensures
            r.wf(),
            r.width_spec() == width + 2,
            r.height_spec() == height + 2,
            r.cells_spec() == (width + 2) * (height + 2),
            r.density_spec() == density,
            r.spacing_spec() == spacing,
            r.u_seq() == zero_seq(r.cells_spec() as int),
            r.v_seq() == zero_seq(r.cells_spec() as int),
            r.pressure_seq() == zero_seq(r.cells_spec() as int),
            r.smoke_seq() == zero_seq(r.cells_spec() as int),
            forall|k: int| 0 <= k < r.cells_spec() ==> !#[trigger] r.fluid_seq()[k],
            forall|k: int|
                0 <= k < r.cells_spec() ==> #[trigger] r.instances_seq()[k] == init_instance(
                    k / (r.height_spec() as int),
                    k % (r.height_spec() as int),
                ),
    {
        let w = width + 2;
        let h = height + 2;
        proof {
            assert(w * h <= MAX_DIM * MAX_DIM) by (nonlinear_arith)
                requires
                    0 < w <= MAX_DIM,
                    0 < h <= MAX_DIM,
            ;
        }
        let cells_num = w * h;
        let mut instances: Vec<Instance> = Vec::new();
        let mut x: usize = 0;
        while x < w
            invariant
                x <= w,
                h == height + 2,
                w <= MAX_DIM,
                h <= MAX_DIM,
                instances@.len() == x * h,
                forall|k: int|
                    0 <= k < instances@.len() ==> #[trigger] instances@[k] == init_instance(
                        k / (h as int),
                        k % (h as int),
                    ),
            decreases w - x,
        {
            let mut y: usize = 0;
            while y < h
                invariant
                    x < w,
                    y <= h,
                    h == height + 2,
                    w <= MAX_DIM,
                    h <= MAX_DIM,
                    instances@.len() == x * h + y,
                    forall|k: int|
                        0 <= k < instances@.len() ==> #[trigger] instances@[k] == init_instance(
                            k / (h as int),
                            k % (h as int),
                        ),
                decreases h - y,
            {
                proof {
                    lemma_grid_index(x as int, y as int, w as int, h as int);
                }
                let px: i64 = (x as i64 - 1) * ONE;
                let py: i64 = (y as i64 - 1) * ONE;
                instances.push(Instance { position: (px, py, 0), color: (ONE, ONE, ONE) });
                y = y + 1;
            }
            proof {
                assert(x * h + h == (x + 1) * h) by (nonlinear_arith);
            }
            x = x + 1;
        }
        let u = filled_i64(cells_num, 0);
        let v = filled_i64(cells_num, 0);
        let pressure = filled_i64(cells_num, 0);
        let smoke = filled_i64(cells_num, 0);
        let fluid = filled_bool(cells_num, false);
        let r = EulerSimulation {
            density,
            width: w,
            height: h,
            cells_num,
            instances,
            u,
            v,
            pressure,
            fluid,
            smoke,
            spacing,
        };
        proof {
            assert(r.u_seq() =~= zero_seq(r.cells_spec() as int));
            assert(r.v_seq() =~= zero_seq(r.cells_spec() as int));
            assert(r.pressure_seq() =~= zero_seq(r.cells_spec() as int));
            assert(r.smoke_seq() =~= zero_seq(r.cells_spec() as int));
        }
        r
    }

    /// Mark border and obstacle cells solid, all other cells fluid, and give
    /// the fluid cells of column 1 the initial inlet velocity.
    #[verifier::loop_isolation(false)]
    pub fn init(&mut self)
        requires
            old(self).wf(),
        ensures
            final(self).wf(),
            final(self).density_spec() == old(self).density_spec(),
            final(self).width_spec() == old(self).width_spec(),
            final(self).height_spec() == old(self).height_spec(),
            final(self).cells_spec() == old(self).cells_spec(),
            final(self).spacing_spec() == old(self).spacing_spec(),
            final(self).instances_seq() == old(self).instances_seq(),
            final(self).v_seq() == old(self).v_seq(),
            final(self).pressure_seq() == old(self).pressure_seq(),
            final(self).smoke_seq() == old(self).smoke_seq(),
            final(self).fluid_seq() == init_fluid(
                old(self).width_spec() as int,
                old(self).height_spec() as int,
            ),
            final(self).u_seq() == init_u(old(self).u_seq(), old(self).height_spec() as int),
    {
        let w = self.width;
        let h = self.height;
        let ghost u0 = self.u@;
        proof {
            lemma_row_of_flat_index(w as int, h as int);
        }
        let mut i: usize = 0;
        while i < w
            invariant
                i <= w,
                old(self).wf(),
                w == self.width,
                h == self.height,
                self.density == old(self).density_spec(),
                self.cells_num == old(self).cells_spec(),
                self.spacing == old(self).spacing,
                self.instances@ == old(self).instances_seq(),
                self.v@ == old(self).v@,
                self.pressure@ == old(self).pressure@,
                self.smoke@ == old(self).smoke@,
                self.fluid@.len() == self.cells_num,
                self.u@.len() == self.cells_num,
                u0 == old(self).u@,
                forall|k: int|
                    0 <= k < self.cells_num && k / (h as int) < i ==> #[trigger] self.fluid@[k]
                        == cell_is_fluid(k / (h as int), k % (h as int), h as int),
                forall|k: int|
                    0 <= k < self.cells_num ==> #[trigger] self.u@[k] == (if k / (h as int) < i
                        && k / (h as int) == 1 && cell_is_fluid(1, k % (h as int), h as int) {
                        INLET_U
                    } else {
                        u0[k]
                    }),
            decreases w - i,
        {
            let mut j: usize = 0;
            while j < h
                invariant
                    i < w,
                    j <= h,
                    old(self).wf(),
                    w == self.width,
                    h == self.height,
                    self.density == old(self).density_spec(),
                    self.cells_num == old(self).cells_spec(),
                    self.spacing == old(self).spacing,
                    self.instances@ == old(self).instances_seq(),
                    self.v@ == old(self).v@,
                    self.pressure@ == old(self).pressure@,
                    self.smoke@ == old(self).smoke@,
                    self.fluid@.len() == self.cells_num,
                    self.u@.len() == self.cells_num,
                    u0 == old(self).u@,
                    forall|k: int|
                        0 <= k < self.cells_num && (k / (h as int) < i || (k / (h as int) == i && k
                            % (h as int) < j)) ==> #[trigger] self.fluid@[k] == cell_is_fluid(
                            k / (h as int),
                            k % (h as int),
                            h as int,
                        ),
                    forall|k: int|
                        0 <= k < self.cells_num ==> #[trigger] self.u@[k] == (if (k / (h as int)
                            < i || (k / (h as int) == i && k % (h as int) < j)) && k / (h as int)
                            == 1 && cell_is_fluid(1, k % (h as int), h as int) {
                            INLET_U
                        } else {
                            u0[k]
                        }),
                decreases h - j,
            {
                proof {
                    lemma_grid_index(i as int, j as int, w as int, h as int);
                }
                let k = i * h + j;
                if i == 0 || j == 0 || j == h - 1 {
                    self.fluid[k] = false;
                } else if i > 51 && i < 69 && j > 40 && j < 60 {
                    self.fluid[k] = false;
                } else {
                    self.fluid[k] = true;
                    if i == 1 {
                        self.u[k] = INLET_U;
                    }
                }
                j = j + 1;
            }
            i = i + 1;
        }
        proof {
            lemma_row_of_flat_index(w as int, h as int);
            assert(self.fluid@ =~= init_fluid(w as int, h as int));
            assert(self.u@ =~= init_u(u0, h as int));
        }
    }

    /// Drive the interior divergence toward zero with `num_iters`
    /// over-relaxed Gauss-Seidel sweeps, accumulating into the pressure
    /// field the corrections the sweeps imply.
    #[verifier::loop_isolation(false)]
    #[verifier::rlimit(60)]
    pub fn solve_incompressibility(&mut self, num_iters: usize, dt: i64)
        requires
            old(self).wf(),
            0 < dt,
            fits(dt as int),
        ensures
            final(self).wf(),
            final(self).density_spec() == old(self).density_spec(),
            final(self).width_spec() == old(self).width_spec(),
            final(self).height_spec() == old(self).height_spec(),
            final(self).cells_spec() == old(self).cells_spec(),
            final(self).spacing_spec() == old(self).spacing_spec(),
            final(self).instances_seq() == old(self).instances_seq(),
            final(self).smoke_seq() == old(self).smoke_seq(),
            final(self).fluid_seq() == old(self).fluid_seq(),
            final(self).fields() == project(
                old(self).fields(),
                old(self).fluid_seq(),
                old(self).width_spec() as int,
                old(self).height_spec() as int,
                cp_of(old(self).density_spec(), old(self).spacing_spec(), dt),
                num_iters as int,
            ),
    {
        let w = self.width;
        let h = self.height;
        let cp = fx_muldiv(self.density, self.spacing, dt);
        let ghost f0 = self.fields();
        let ghost flu = self.fluid@;
        let ghost ww = w as int;
        let ghost hh = h as int;
        let mut iter: usize = 0;
        while iter < num_iters
            invariant
                iter <= num_iters,
                self.wf(),
                self.width == w,
                self.height == h,
                self.cells_num == old(self).cells_spec(),
                self.density == old(self).density_spec(),
                self.spacing == old(self).spacing,
                self.instances@ == old(self).instances_seq(),
                self.smoke@ == old(self).smoke@,
                self.fluid@ == flu,
                self.fields() == project(f0, flu, ww, hh, cp, iter as int),
            decreases num_iters - iter,
        {
            let mut i: usize = 1;
            proof {
                assert((i as int - 1) * (hh - 2) == 0) by (nonlinear_arith)
                    requires
                        i == 1usize,
                ;
            }
            while i < w - 1
                invariant
                    1 <= i <= w - 1,
                    self.wf(),
                    self.width == w,
                    self.height == h,
                    self.cells_num == old(self).cells_spec(),
                    self.density == old(self).density_spec(),
                    self.spacing == old(self).spacing,
                    self.instances@ == old(self).instances_seq(),
                    self.smoke@ == old(self).smoke@,
                    self.fluid@ == flu,
                    self.fields() == relax_upto(
                        project(f0, flu, ww, hh, cp, iter as int),
                        flu,
                        ww,
                        hh,
                        cp,
                        (i as int - 1) * (hh - 2),
                    ),
                decreases w - 1 - i,
            {
                let mut j: usize = 1;
                while j < h - 1
                    invariant
                        1 <= j <= h - 1,
                        1 <= i < w - 1,
                        self.wf(),
                        self.width == w,
                        self.height == h,
                        self.cells_num == old(self).cells_spec(),
                        self.density == old(self).density_spec(),
                        self.spacing == old(self).spacing,
                        self.instances@ == old(self).instances_seq(),
                        self.smoke@ == old(self).smoke@,
                        self.fluid@ == flu,
                        self.fields() == relax_upto(
                            project(f0, flu, ww, hh, cp, iter as int),
                            flu,
                            ww,
                            hh,
                            cp,
                            (i as int - 1) * (hh - 2) + (j as int - 1),
                        ),
                    decreases h - 1 - j,
                {
                    let ghost fprev = self.fields();
                    let ghost t1 = (i as int - 1) * (hh - 2) + (j as int - 1);
                    proof {
                        lemma_grid_index(i as int, j as int, ww, hh);
                        assert(h <= i * h && (i as int + 1) * hh + (j as int) < ww * hh && (
                        i as int) * hh + (j as int + 1) < ww * hh && (i as int + 1) * hh == (
                        i as int) * hh + hh) by (nonlinear_arith)
                            requires
                                1 <= (i as int) < ww - 1,
                                1 <= (j as int) < hh - 1,
                                3 <= hh,
                                3 <= ww,
                        ;
                    }
                    let k = i * h + j;
                    if self.fluid[k] {
                        let fx0 = self.fluid[k - h];
                        let fx1 = self.fluid[k + h];
                        let fy0 = self.fluid[k - 1];
                        let fy1 = self.fluid[k + 1];
                        let s_cnt: i64 = (if fx0 {
                            1
                        } else {
                            0
                        }) + (if fx1 {
                            1
                        } else {
                            0
                        }) + (if fy0 {
                            1
                        } else {
                            0
                        }) + (if fy1 {
                            1
                        } else {
                            0
                        });
                        if s_cnt != 0 {
                            let du = fx_sub(self.u[k + h], self.u[k]);
                            let div = fx_sub(fx_add(du, self.v[k + 1]), self.v[k]);
                            let p = fx_muldiv(div, -19, 10 * s_cnt);
                            let pk = fx_add(self.pressure[k], fx_mul(cp, p));
                            self.pressure[k] = pk;
                            if fx0 {
                                let t = fx_sub(self.u[k], p);
                                self.u[k] = t;
                            }
                            if fx1 {
                                let t = fx_add(self.u[k + h], p);
                                self.u[k + h] = t;
                            }
                            if fy0 {
                                let t = fx_sub(self.v[k], p);
                                self.v[k] = t;
                            }
                            if fy1 {
                                let t = fx_add(self.v[k + 1], p);
                                self.v[k + 1] = t;
                            }
                        }
                    }
                    proof {
                        assert(self.fields() =~= relax_cell(fprev, flu, hh, cp, i as int, j as int));
                        lemma_fundamental_div_mod_converse(t1, hh - 2, i as int - 1, j as int - 1);
                        assert(relax_upto(project(f0, flu, ww, hh, cp, iter as int), flu, ww, hh, cp, t1 + 1)
                            == relax_cell(fprev, flu, hh, cp, i as int, j as int));
                    }
                    j = j + 1;
                }
                proof {
                    assert((i as int - 1) * (hh - 2) + (hh - 2) == (i as int) * (hh
                        - 2)) by (nonlinear_arith);
                }
                i = i + 1;
            }
            proof {
                assert(self.fields() == sweep(project(f0, flu, ww, hh, cp, iter as int), flu, ww, hh, cp));
                assert(project(f0, flu, ww, hh, cp, iter as int + 1) == sweep(
                    project(f0, flu, ww, hh, cp, iter as int),
                    flu,
                    ww,
                    hh,
                    cp,
                ));
            }
            iter = iter + 1;
        }
    }

    /// Copy the first and last interior row of `u` into the border rows and
    /// the first and last interior column of `v` into the border columns.
    #[verifier::loop_isolation(false)]
    pub fn extrapolate(&mut self)
        requires
            old(self).wf(),
        ensures
            final(self).wf(),
            final(self).density_spec() == old(self).density_spec(),
            final(self).width_spec() == old(self).width_spec(),
            final(self).height_spec() == old(self).height_spec(),
            final(self).cells_spec() == old(self).cells_spec(),
            final(self).spacing_spec() == old(self).spacing_spec(),
            final(self).instances_seq() == old(self).instances_seq(),
            final(self).smoke_seq() == old(self).smoke_seq(),
            final(self).fluid_seq() == old(self).fluid_seq(),
            final(self).pressure_seq() == old(self).pressure_seq(),
            final(self).u_seq() == extrapolate_u(old(self).u_seq(), old(self).height_spec() as int),
            final(self).v_seq() == extrapolate_v(
                old(self).v_seq(),
                old(self).width_spec() as int,
                old(self).height_spec() as int,
            ),
    {
        let w = self.width;
        let h = self.height;
        let ghost hh = h as int;
        let ghost u0 = self.u@;
        proof {
            lemma_row_of_flat_index(w as int, hh);
        }
        let mut i: usize = 0;
        while i < w
            invariant
                i <= w,
                self.wf(),
                self.width == w,
                self.height == h,
                self.cells_num == old(self).cells_spec(),
                self.density == old(self).density_spec(),
                self.spacing == old(self).spacing,
                self.instances@ == old(self).instances_seq(),
                self.smoke@ == old(self).smoke@,
                self.fluid@ == old(self).fluid@,
                self.pressure@ == old(self).pressure@,
                self.v@ == old(self).v@,
                self.u@.len() == u0.len(),
                forall|k: int|
                    0 <= k < u0.len() ==> #[trigger] self.u@[k] == (if k / hh < i && k % hh == 0 {
                        u0[k + 1]
                    } else if k / hh < i && k % hh == hh - 1 {
                        u0[k - 1]
                    } else {
                        u0[k]
                    }),
            decreases w - i,
        {
            proof {
                lemma_grid_index(i as int, 0, w as int, hh);
                lemma_grid_index(i as int, 1, w as int, hh);
                lemma_grid_index(i as int, hh - 1, w as int, hh);
                lemma_grid_index(i as int, hh - 2, w as int, hh);
            }
            let a = self.u[i * h + 1];
            self.u[i * h] = a;
            let b = self.u[i * h + h - 2];
            self.u[i * h + h - 1] = b;
            i = i + 1;
        }
        proof {
            lemma_row_of_flat_index(w as int, hh);
            assert(self.u@ =~= extrapolate_u(u0, hh));
        }
        let ghost v0 = self.v@;
        let mut j: usize = 0;
        while j < h
            invariant
                j <= h,
                self.wf(),
                self.width == w,
                self.height == h,
                self.cells_num == old(self).cells_spec(),
                self.density == old(self).density_spec(),
                self.spacing == old(self).spacing,
                self.instances@ == old(self).instances_seq(),
                self.smoke@ == old(self).smoke@,
                self.fluid@ == old(self).fluid@,
                self.pressure@ == old(self).pressure@,
                self.u@ == extrapolate_u(u0, hh),
                self.v@.len() == v0.len(),
                forall|k: int|
                    0 <= k < v0.len() ==> #[trigger] self.v@[k] == (if k < j {
                        v0[k + hh]
                    } else if (w as int - 1) * hh <= k < (w as int - 1) * hh + j {
                        v0[k - hh]
                    } else {
                        v0[k]
                    }),
            decreases h - j,
        {
            proof {
                lemma_grid_index(1, j as int, w as int, hh);
                lemma_grid_index(w as int - 1, j as int, w as int, hh);
                lemma_grid_index(w as int - 2, j as int, w as int, hh);
                assert(2 * hh <= (w as int - 1) * hh && hh <= (w as int - 2) * hh && (w as int
                    - 2) * hh + hh == (w as int - 1) * hh) by (nonlinear_arith)
                    requires
                        3 <= w as int,
                        0 < hh,
                ;
            }
            let a = self.v[h + j];
            self.v[j] = a;
            let b = self.v[(w - 2) * h + j];
            self.v[(w - 1) * h + j] = b;
            j = j + 1;
        }
        proof {
            assert forall|k: int| 0 <= k < v0.len() implies self.v@[k] == extrapolate_v(
                v0,
                w as int,
                hh,
            )[k] by {
                lemma_row_of_flat_index(w as int, hh);
                if k >= (w as int - 1) * hh {
                    assert(k < (w as int - 1) * hh + hh) by (nonlinear_arith)
                        requires
                            k < (w as int) * hh,
                    ;
                }
            }
            assert(self.v@ =~= extrapolate_v(v0, w as int, hh));
        }
    }

    /// Average of the four `u` samples surrounding the `v` sample at `(i, j)`.
    fn avg_u(&self, i: usize, j: usize) -> (r: i64)
        requires
            self.wf(),
            i + 1 < self.width,
            1 <= j < self.height,
        ensures
            r == s_avg_u(self.u_seq(), self.height as int, i as int, j as int),
            fits(r as int),
    {
        proof {
            lemma_grid_index(i as int, j as int - 1, self.width as int, self.height as int);
            lemma_grid_index(i as int, j as int, self.width as int, self.height as int);
            lemma_grid_index(i as int + 1, j as int - 1, self.width as int, self.height as int);
            lemma_grid_index(i as int + 1, j as int, self.width as int, self.height as int);
        }
        let n = self.height;
        let sum = fx_add(
            fx_add(fx_add(self.u[i * n + j - 1], self.u[i * n + j]), self.u[(i + 1) * n + j - 1]),
            self.u[(i + 1) * n + j],
        );
        fx_muldiv(sum, 1, 4)
    }

    /// Average of the four `v` samples surrounding the `u` sample at `(i, j)`.
    fn avg_v(&self, i: usize, j: usize) -> (r: i64)
        requires
            self.wf(),
            1 <= i < self.width,
            j + 1 < self.height,
        ensures
            r == s_avg_v(self.v_seq(), self.height as int, i as int, j as int),
            fits(r as int),
    {
        proof {
            lemma_grid_index(i as int - 1, j as int, self.width as int, self.height as int);
            lemma_grid_index(i as int, j as int, self.width as int, self.height as int);
            lemma_grid_index(i as int - 1, j as int + 1, self.width as int, self.height as int);
            lemma_grid_index(i as int, j as int + 1, self.width as int, self.height as int);
        }
        let n = self.height;
        let sum = fx_add(
            fx_add(fx_add(self.v[(i - 1) * n + j], self.v[i * n + j]), self.v[(i - 1) * n + j + 1]),
            self.v[i * n + j + 1],
        );
        fx_muldiv(sum, 1, 4)
    }

    /// What `sample_field` returns: a bilinear sample of the selected field
    /// at the staggering offset that belongs to it.
    pub closed spec fn sample_spec(&self, x: i64, y: i64, ft: FieldType) -> i64 {
        let half = s_muldiv(self.spacing, 1, 2);
        match ft {
            FieldType::UField => s_sample(
                self.u@,
                self.width as int,
                self.height as int,
                self.spacing,
                x,
                y,
                0,
                half,
            ),
            FieldType::VField => s_sample(
                self.v@,
                self.width as int,
                self.height as int,
                self.spacing,
                x,
                y,
                half,
                0,
            ),
            FieldType::SField => s_sample(
                self.smoke@,
                self.width as int,
                self.height as int,
                self.spacing,
                x,
                y,
                half,
                half,
            ),
        }
    }

    /// Bilinearly resample one field at a continuous position, clamping the
    /// base cell into the stored grid.
    pub fn sample_field(&self, x: i64, y: i64, field_type: FieldType) -> (r: i64)
        requires
            self.wf(),
            fits(x as int),
            fits(y as int),
        ensures
            r == self.sample_spec(x, y, field_type),
            fits(r as int),
    {
        let h2 = fx_muldiv(self.spacing, 1, 2);
        let dx: i64;
        let dy: i64;
        match field_type {
            FieldType::UField => {
                dx = 0;
                dy = h2;
            },
            FieldType::VField => {
                dx = h2;
                dy = 0;
            },
            FieldType::SField => {
                dx = h2;
                dy = h2;
            },
        }
        let xs = fx_sub(x, dx);
        let ys = fx_sub(y, dy);
        let x0 = cell_index(xs, self.spacing, self.width - 1);
        let x1 = if x0 + 1 <= self.width - 1 {
            x0 + 1
        } else {
            self.width - 1
        };
        let y0 = cell_index(ys, self.spacing, self.height - 1);
        let y1 = if y0 + 1 <= self.height - 1 {
            y0 + 1
        } else {
            self.height - 1
        };
        let tx = frac_offset(xs, x0, self.spacing);
        let ty = frac_offset(ys, y0, self.spacing);
        proof {
            lemma_grid_index(x0 as int, y0 as int, self.width as int, self.height as int);
            lemma_grid_index(x1 as int, y0 as int, self.width as int, self.height as int);
            lemma_grid_index(x1 as int, y1 as int, self.width as int, self.height as int);
            lemma_grid_index(x0 as int, y1 as int, self.width as int, self.height as int);
        }
        let n = self.height;
        let a: i64;
        let b: i64;
        let c: i64;
        let d: i64;
        match field_type {
            FieldType::UField => {
                a = self.u[x0 * n + y0];
                b = self.u[x1 * n + y0];
                c = self.u[x1 * n + y1];
                d = self.u[x0 * n + y1];
            },
            FieldType::VField => {
                a = self.v[x0 * n + y0];
                b = self.v[x1 * n + y0];
                c = self.v[x1 * n + y1];
                d = self.v[x0 * n + y1];
            },
            FieldType::SField => {
                a = self.smoke[x0 * n + y0];
                b = self.smoke[x1 * n + y0];
                c = self.smoke[x1 * n + y1];
                d = self.smoke[x0 * n + y1];
            },
        }
        fx_bilerp(a, b, c, d, tx, ty)
    }

    /// Advect both velocity components through the current velocity field,
    /// writing into fresh buffers so every backtrace samples the
    /// pre-advection field (double buffering).
    #[verifier::loop_isolation(false)]
    pub fn advect_vel(&mut self, dt: i64)
        requires
            old(self).wf(),
            fits(dt as int),
        ensures
            final(self).wf(),
            final(self).density_spec() == old(self).density_spec(),
            final(self).width_spec() == old(self).width_spec(),
            final(self).height_spec() == old(self).height_spec(),
            final(self).cells_spec() == old(self).cells_spec(),
            final(self).spacing_spec() == old(self).spacing_spec(),
            final(self).instances_seq() == old(self).instances_seq(),
            final(self).smoke_seq() == old(self).smoke_seq(),
            final(self).fluid_seq() == old(self).fluid_seq(),
            final(self).pressure_seq() == old(self).pressure_seq(),
            final(self).u_seq() == advected_u(
                old(self).u_seq(),
                old(self).v_seq(),
                old(self).fluid_seq(),
                old(self).width_spec() as int,
                old(self).height_spec() as int,
                old(self).spacing_spec(),
                dt,
            ),
            final(self).v_seq() == advected_v(
                old(self).u_seq(),
                old(self).v_seq(),
                old(self).fluid_seq(),
                old(self).width_spec() as int,
                old(self).height_spec() as int,
                old(self).spacing_spec(),
                dt,
            ),
    {
        let w = self.width;
        let h = self.height;
        let sp = self.spacing;
        let ghost ww = w as int;
        let ghost hh = h as int;
        let ghost u0 = self.u@;
        let ghost v0 = self.v@;
        let ghost flu = self.fluid@;
        let h2 = fx_muldiv(sp, 1, 2);
        proof {
            lemma_row_of_flat_index(ww, hh);
        }
        let mut new_u = copy_vec(&self.u);
        let mut new_v = copy_vec(&self.v);
        let mut i: usize = 1;
        while i < w
            invariant
                1 <= i <= w,
                self.wf(),
                *self == *old(self),
                self.width == w,
                self.height == h,
                self.spacing == sp,
                new_u@.len() == u0.len(),
                new_v@.len() == v0.len(),
                all_fits(new_u@),
                all_fits(new_v@),
                forall|k: int|
                    0 <= k < u0.len() && 1 <= k / hh < i && 1 <= k % hh ==> #[trigger] new_u@[k]
                        == advected_u(u0, v0, flu, ww, hh, sp, dt)[k],
                forall|k: int|
                    0 <= k < u0.len() && !(1 <= k / hh < i && 1 <= k % hh) ==> #[trigger] new_u@[k]
                        == u0[k],
                forall|k: int|
                    0 <= k < v0.len() && 1 <= k / hh < i && 1 <= k % hh ==> #[trigger] new_v@[k]
                        == advected_v(u0, v0, flu, ww, hh, sp, dt)[k],
                forall|k: int|
                    0 <= k < v0.len() && !(1 <= k / hh < i && 1 <= k % hh) ==> #[trigger] new_v@[k]
                        == v0[k],
            decreases w - i,
        {
            let mut j: usize = 1;
            while j < h
                invariant
                    1 <= i < w,
                    1 <= j <= h,
                    self.wf(),
                    *self == *old(self),
                    self.width == w,
                    self.height == h,
                    self.spacing == sp,
                    new_u@.len() == u0.len(),
                    new_v@.len() == v0.len(),
                    all_fits(new_u@),
                    all_fits(new_v@),
                    forall|k: int|
                        0 <= k < u0.len() && (1 <= k / hh < i || (k / hh == i && 1 <= k % hh < j))
                            && 1 <= k % hh ==> #[trigger] new_u@[k] == advected_u(
                            u0,
                            v0,
                            flu,
                            ww,
                            hh,
                            sp,
                            dt,
                        )[k],
                    forall|k: int|
                        0 <= k < u0.len() && !((1 <= k / hh < i || (k / hh == i && 1 <= k % hh < j))
                            && 1 <= k % hh) ==> #[trigger] new_u@[k] == u0[k],
                    forall|k: int|
                        0 <= k < v0.len() && (1 <= k / hh < i || (k / hh == i && 1 <= k % hh < j))
                            && 1 <= k % hh ==> #[trigger] new_v@[k] == advected_v(
                            u0,
                            v0,
                            flu,
                            ww,
                            hh,
                            sp,
                            dt,
                        )[k],
                    forall|k: int|
                        0 <= k < v0.len() && !((1 <= k / hh < i || (k / hh == i && 1 <= k % hh < j))
                            && 1 <= k % hh) ==> #[trigger] new_v@[k] == v0[k],
                decreases h - j,
            {
                proof {
                    lemma_grid_index(i as int, j as int, ww, hh);
                    assert(hh <= i as int * hh + j as int) by (nonlinear_arith)
                        requires
                            1 <= i as int,
                            0 <= j as int,
                            0 < hh,
                    ;
                }
                let k = i * h + j;
                if self.fluid[k] && self.fluid[k - h] && j < h - 1 {
                    let x0p = grid_pos(i, sp);
                    let y0p = fx_add(grid_pos(j, sp), h2);
                    let uh = self.u[k];
                    let va = self.avg_v(i, j);
                    let x = fx_sub(x0p, fx_mul(dt, uh));
                    let y = fx_sub(y0p, fx_mul(dt, va));
                    let un = self.sample_field(x, y, FieldType::UField);
                    new_u[k] = un;
                }
                if self.fluid[k] && self.fluid[k - 1] && i < w - 1 {
                    let x0p = fx_add(grid_pos(i, sp), h2);
                    let y0p = grid_pos(j, sp);
                    let ua = self.avg_u(i, j);
                    let vh = self.v[k];
                    let x = fx_sub(x0p, fx_mul(dt, ua));
                    let y = fx_sub(y0p, fx_mul(dt, vh));
                    let vn = self.sample_field(x, y, FieldType::VField);
                    new_v[k] = vn;
                }
                j = j + 1;
            }
            i = i + 1;
        }
        proof {
            lemma_row_of_flat_index(ww, hh);
        }
        self.u = new_u;
        self.v = new_v;
        proof {
            assert(self.u@ =~= advected_u(u0, v0, flu, ww, hh, sp, dt));
            assert(self.v@ =~= advected_v(u0, v0, flu, ww, hh, sp, dt));
        }
    }

    /// Advect the smoke scalar through the (already advected) velocity
    /// field, again double-buffered. Smoke values stay within `[0, ONE]`.
    #[verifier::loop_isolation(false)]
    pub fn advect_smoke(&mut self, dt: i64)
        requires
            old(self).wf(),
            fits(dt as int),
        ensures
            final(self).wf(),
            final(self).density_spec() == old(self).density_spec(),
            final(self).width_spec() == old(self).width_spec(),
            final(self).height_spec() == old(self).height_spec(),
            final(self).cells_spec() == old(self).cells_spec(),
            final(self).spacing_spec() == old(self).spacing_spec(),
            final(self).instances_seq() == old(self).instances_seq(),
            final(self).u_seq() == old(self).u_seq(),
            final(self).v_seq() == old(self).v_seq(),
            final(self).fluid_seq() == old(self).fluid_seq(),
            final(self).pressure_seq() == old(self).pressure_seq(),
            final(self).smoke_seq() == advected_smoke(
                old(self).smoke_seq(),
                old(self).u_seq(),
                old(self).v_seq(),
                old(self).fluid_seq(),
                old(self).width_spec() as int,
                old(self).height_spec() as int,
                old(self).spacing_spec(),
                dt,
            ),
    {
        let w = self.width;
        let h = self.height;
        let sp = self.spacing;
        let ghost ww = w as int;
        let ghost hh = h as int;
        let ghost s0 = self.smoke@;
        let ghost flu = self.fluid@;
        let h2 = fx_muldiv(sp, 1, 2);
        proof {
            lemma_row_of_flat_index(ww, hh);
        }
        let mut new_smoke = copy_vec(&self.smoke);
        let mut i: usize = 0;
        while i < w - 1
            invariant
                i <= w - 1,
                self.wf(),
                *self == *old(self),
                self.width == w,
                self.height == h,
                self.spacing == sp,
                new_smoke@.len() == s0.len(),
                all_in_unit(new_smoke@),
                forall|k: int|
                    0 <= k < s0.len() && k / hh < i && k % hh < hh - 1 ==> #[trigger] new_smoke@[k]
                        == advected_smoke(s0, self.u@, self.v@, flu, ww, hh, sp, dt)[k],
                forall|k: int|
                    0 <= k < s0.len() && !(k / hh < i && k % hh < hh - 1) ==> #[trigger] new_smoke@[k]
                        == s0[k],
            decreases w - 1 - i,
        {
            let mut j: usize = 0;
            while j < h - 1
                invariant
                    i < w - 1,
                    j <= h - 1,
                    self.wf(),
                    *self == *old(self),
                    self.width == w,
                    self.height == h,
                    self.spacing == sp,
                    new_smoke@.len() == s0.len(),
                    all_in_unit(new_smoke@),
                    forall|k: int|
                        0 <= k < s0.len() && (k / hh < i || (k / hh == i && k % hh < j)) && k % hh
                            < hh - 1 ==> #[trigger] new_smoke@[k] == advected_smoke(
                            s0,
                            self.u@,
                            self.v@,
                            flu,
                            ww,
                            hh,
                            sp,
                            dt,
                        )[k],
                    forall|k: int|
                        0 <= k < s0.len() && !((k / hh < i || (k / hh == i && k % hh < j)) && k % hh
                            < hh - 1) ==> #[trigger] new_smoke@[k] == s0[k],
                decreases h - 1 - j,
            {
                proof {
                    lemma_grid_index(i as int, j as int, ww, hh);
                    lemma_grid_index(i as int, j as int + 1, ww, hh);
                    assert((i as int + 1) * hh + (j as int) < ww * hh && (i as int + 1) * hh + (
                    j as int) == i as int * hh + j as int + hh) by (nonlinear_arith)
                        requires
                            0 <= (i as int) < ww - 1,
                            0 <= (j as int) < hh,
                            0 < hh,
                    ;
                }
                let k = i * h + j;
                if self.fluid[k] {
                    let uc = fx_muldiv(fx_add(self.u[k], self.u[k + h]), 1, 2);
                    let vc = fx_muldiv(fx_add(self.v[k], self.v[k + 1]), 1, 2);
                    let x = fx_sub(fx_add(grid_pos(i, sp), h2), fx_mul(dt, uc));
                    let y = fx_sub(fx_add(grid_pos(j, sp), h2), fx_mul(dt, vc));
                    let sn = self.sample_field(x, y, FieldType::SField);
                    proof {
                        lemma_sample_in_unit(s0, ww, hh, sp, x, y, h2, h2);
                    }
                    new_smoke[k] = sn;
                }
                j = j + 1;
            }
            i = i + 1;
        }
        proof {
            lemma_row_of_flat_index(ww, hh);
        }
        self.smoke = new_smoke;
        proof {
            assert(self.smoke@ =~= advected_smoke(s0, self.u@, self.v@, flu, ww, hh, sp, dt));
        }
    }

    /// The four-band rainbow ramp used by the colorization pass.
    pub fn get_color(val: i64, min_val: i64, max_val: i64) -> (r: (i64, i64, i64))
        requires
            fits(val as int),
            fits(min_val as int),
            fits(max_val as int),
        ensures
            r == color_spec(val, min_val, max_val),
            fits(r.0 as int),
            fits(r.1 as int),
            fits(r.2 as int),
    {
        let lo = if val < min_val {
            min_val
        } else {
            val
        };
        let cap = fx_sub(max_val, COLOR_MARGIN);
        let v2 = if lo > cap {
            cap
        } else {
            lo
        };
        let d = fx_sub(max_val, min_val);
        let t = if d == 0 {
            HALF
        } else {
            fx_div(fx_sub(v2, min_val), d)
        };
        if t < 0 {
            (0, 0, 0)
        } else {
            let band_u: u64 = (t as u64) / (QUARTER as u64);
            proof {
                lemma_div_is_ordered(t as int, LIM as int, QUARTER as int);
            }
            let band: i64 = band_u as i64;
            proof {
                vstd::arithmetic::div_mod::lemma_div_basics(band as int * QUARTER as int);
                assert(band as int * QUARTER as int == QUARTER as int * band as int)
                    by (nonlinear_arith);
            }
            let bq = fx_muldiv(band, QUARTER, 1);
            let s = fx_muldiv(fx_sub(t, bq), ONE, QUARTER);
            if band == 0 {
                (0, s, ONE)
            } else if band == 1 {
                (0, ONE, fx_sub(ONE, s))
            } else if band == 2 {
                (s, ONE, 0)
            } else if band == 3 {
                (ONE, fx_sub(ONE, s), 0)
            } else {
                (0, 0, 0)
            }
        }
    }

    /// Re-inject full smoke density at the inlet band of column 1.
    #[verifier::loop_isolation(false)]
    fn inject_smoke(&mut self)
        requires
            old(self).wf(),
        ensures
            final(self).wf(),
            final(self).density_spec() == old(self).density_spec(),
            final(self).width_spec() == old(self).width_spec(),
            final(self).height_spec() == old(self).height_spec(),
            final(self).cells_spec() == old(self).cells_spec(),
            final(self).spacing_spec() == old(self).spacing_spec(),
            final(self).instances_seq() == old(self).instances_seq(),
            final(self).u_seq() == old(self).u_seq(),
            final(self).v_seq() == old(self).v_seq(),
            final(self).fluid_seq() == old(self).fluid_seq(),
            final(self).pressure_seq() == old(self).pressure_seq(),
            final(self).smoke_seq() == inject_spec(old(self).smoke_seq(), old(self).height_spec() as int),
    {
        let h = self.height;
        let ghost hh = h as int;
        let ghost s0 = self.smoke@;
        proof {
            lemma_row_of_flat_index(self.width as int, hh);
        }
        let mut j: usize = 0;
        while j < h
            invariant
                j <= h,
                self.wf(),
                self.width == old(self).width_spec(),
                self.height == h,
                self.cells_num == old(self).cells_spec(),
                self.density == old(self).density_spec(),
                self.spacing == old(self).spacing,
                self.instances@ == old(self).instances_seq(),
                self.u@ == old(self).u@,
                self.v@ == old(self).v@,
                self.fluid@ == old(self).fluid@,
                self.pressure@ == old(self).pressure@,
                self.smoke@.len() == s0.len(),
                forall|k: int|
                    0 <= k < s0.len() ==> #[trigger] self.smoke@[k] == (if k / hh == 1 && 41 < k
                        % hh < 60 && k % hh < j {
                        ONE
                    } else {
                        s0[k]
                    }),
            decreases h - j,
        {
            if j > 41 && j < 60 {
                proof {
                    lemma_grid_index(1, j as int, self.width as int, hh);
                }
                self.smoke[h + j] = ONE;
            }
            j = j + 1;
        }
        proof {
            assert(self.smoke@ =~= inject_spec(s0, hh));
        }
    }

    /// Clear the pressure field; it accumulates only the current step's
    /// corrections.
    #[verifier::loop_isolation(false)]
    fn zero_pressure(&mut self)
        requires
            old(self).wf(),
        ensures
            final(self).wf(),
            final(self).density_spec() == old(self).density_spec(),
            final(self).width_spec() == old(self).width_spec(),
            final(self).height_spec() == old(self).height_spec(),
            final(self).cells_spec() == old(self).cells_spec(),
            final(self).spacing_spec() == old(self).spacing_spec(),
            final(self).instances_seq() == old(self).instances_seq(),
            final(self).u_seq() == old(self).u_seq(),
            final(self).v_seq() == old(self).v_seq(),
            final(self).fluid_seq() == old(self).fluid_seq(),
            final(self).smoke_seq() == old(self).smoke_seq(),
            final(self).pressure_seq() == zero_seq(old(self).cells_spec() as int),
    {
        let n = self.cells_num;
        let mut k: usize = 0;
        while k < n
            invariant
                k <= n,
                self.wf(),
                self.width == old(self).width_spec(),
                self.height == old(self).height_spec(),
                self.cells_num == n,
                self.density == old(self).density_spec(),
                self.spacing == old(self).spacing,
                self.instances@ == old(self).instances_seq(),
                self.u@ == old(self).u@,
                self.v@ == old(self).v@,
                self.fluid@ == old(self).fluid@,
                self.smoke@ == old(self).smoke@,
                self.pressure@.len() == n,
                forall|t: int| 0 <= t < k ==> #[trigger] self.pressure@[t] == 0i64,
                forall|t: int|
                    k <= t < n ==> #[trigger] self.pressure@[t] == old(self).pressure@[t],
            decreases n - k,
        {
            self.pressure[k] = 0;
            k = k + 1;
        }
        proof {
            assert(self.pressure@ =~= zero_seq(n as int));
        }
    }

    /// Smallest stored pressure.
    #[verifier::loop_isolation(false)]
    fn min_pressure(&self) -> (r: i64)
        requires
            self.wf(),
        ensures
            r == seq_min(self.pressure_seq()),
            fits(r as int),
    {
        let n = self.cells_num;
        let mut r: i64 = LIM;
        let mut k: usize = 0;
        while k < n
            invariant
                k <= n,
                fits(r as int),
                r == seq_min(self.pressure@.subrange(0, k as int)),
            decreases n - k,
        {
            proof {
                assert(self.pressure@.subrange(0, k as int + 1).drop_last() =~= self.pressure@
                    .subrange(0, k as int));
            }
            if self.pressure[k] < r {
                r = self.pressure[k];
            }
            k = k + 1;
        }
        proof {
            assert(self.pressure@.subrange(0, n as int) =~= self.pressure@);
        }
        r
    }

    /// Largest stored pressure.
    #[verifier::loop_isolation(false)]
    fn max_pressure(&self) -> (r: i64)
        requires
            self.wf(),
        ensures
            r == seq_max(self.pressure_seq()),
            fits(r as int),
    {
        let n = self.cells_num;
        let mut r: i64 = -LIM;
        let mut k: usize = 0;
        while k < n
            invariant
                k <= n,
                fits(r as int),
                r == seq_max(self.pressure@.subrange(0, k as int)),
            decreases n - k,
        {
            proof {
                assert(self.pressure@.subrange(0, k as int + 1).drop_last() =~= self.pressure@
                    .subrange(0, k as int));
            }
            if self.pressure[k] > r {
                r = self.pressure[k];
            }
            k = k + 1;
        }
        proof {
            assert(self.pressure@.subrange(0, n as int) =~= self.pressure@);
        }
        r
    }

    /// Rewrite every instance color from the pressure ramp modulated by
    /// smoke. Both the instance buffer and the physics arrays are addressed
    /// with the flat index `y * width + x` here; that is the solver's kept
    /// quirk (the physics passes use `i * height + j`).
    #[verifier::loop_isolation(false)]
    fn colorize_instances(&mut self)
        requires
            old(self).wf(),
        ensures
            final(self).wf(),
            final(self).density_spec() == old(self).density_spec(),
            final(self).width_spec() == old(self).width_spec(),
            final(self).height_spec() == old(self).height_spec(),
            final(self).cells_spec() == old(self).cells_spec(),
            final(self).spacing_spec() == old(self).spacing_spec(),
            final(self).u_seq() == old(self).u_seq(),
            final(self).v_seq() == old(self).v_seq(),
            final(self).fluid_seq() == old(self).fluid_seq(),
            final(self).smoke_seq() == old(self).smoke_seq(),
            final(self).pressure_seq() == old(self).pressure_seq(),
            final(self).instances_seq() == colorize(
                old(self).instances_seq(),
                old(self).pressure_seq(),
                old(self).smoke_seq(),
            ),
    {
        let w = self.width;
        let h = self.height;
        let ghost ww = w as int;
        let ghost hh = h as int;
        let ghost inst0 = self.instances@;
        proof {
            lemma_row_of_flat_index(hh, ww);
        }
        let min_p = self.min_pressure();
        let max_p = self.max_pressure();
        let mut x: usize = 0;
        while x < w
            invariant
                x <= w,
                self.wf(),
                self.width == w,
                self.height == h,
                self.cells_num == old(self).cells_spec(),
                self.density == old(self).density_spec(),
                self.spacing == old(self).spacing,
                self.u@ == old(self).u@,
                self.v@ == old(self).v@,
                self.fluid@ == old(self).fluid@,
                self.smoke@ == old(self).smoke@,
                self.pressure@ == old(self).pressure@,
                min_p == seq_min(self.pressure@),
                max_p == seq_max(self.pressure@),
                self.instances@.len() == inst0.len(),
                forall|k: int|
                    0 <= k < inst0.len() && k % ww < x ==> #[trigger] self.instances@[k]
                        == colorize(inst0, self.pressure@, self.smoke@)[k],
                forall|k: int|
                    0 <= k < inst0.len() && k % ww >= x ==> #[trigger] self.instances@[k]
                        == inst0[k],
            decreases w - x,
        {
            let mut y: usize = 0;
            while y < h
                invariant
                    x < w,
                    y <= h,
                    self.wf(),
                    self.width == w,
                    self.height == h,
                    self.cells_num == old(self).cells_spec(),
                    self.density == old(self).density_spec(),
                    self.spacing == old(self).spacing,
                    self.u@ == old(self).u@,
                    self.v@ == old(self).v@,
                    self.fluid@ == old(self).fluid@,
                    self.smoke@ == old(self).smoke@,
                    self.pressure@ == old(self).pressure@,
                    min_p == seq_min(self.pressure@),
                    max_p == seq_max(self.pressure@),
                    self.instances@.len() == inst0.len(),
                    forall|k: int|
                        0 <= k < inst0.len() && (k % ww < x || (k % ww == x && k / ww < y))
                            ==> #[trigger] self.instances@[k] == colorize(
                            inst0,
                            self.pressure@,
                            self.smoke@,
                        )[k],
                    forall|k: int|
                        0 <= k < inst0.len() && !(k % ww < x || (k % ww == x && k / ww < y))
                            ==> #[trigger] self.instances@[k] == inst0[k],
                decreases h - y,
            {
                proof {
                    lemma_grid_index(y as int, x as int, hh, ww);
                }
                let idx = y * w + x;
                let p = self.pressure[idx];
                let s = self.smoke[idx];
                let c = Self::get_color(p, min_p, max_p);
                let cr = fx_max0(fx_mul(c.0, s));
                let cg = fx_max0(fx_mul(c.1, s));
                let cb = fx_max0(fx_mul(c.2, s));
                let inst = self.instances[idx];
                self.instances[idx] = Instance { position: inst.position, color: (cr, cg, cb) };
                y = y + 1;
            }
            x = x + 1;
        }
        proof {
            lemma_row_of_flat_index(hh, ww);
            assert forall|k: int| 0 <= k < inst0.len() implies self.instances@[k] == colorize(
                inst0,
                self.pressure@,
                self.smoke@,
            )[k] by {
                assert(0 <= k % ww < ww);
            }
            assert(self.instances@ =~= colorize(inst0, self.pressure@, self.smoke@));
        }
    }

    /// Advance the simulation by one step: inject smoke, clear pressure,
    /// project the velocity field toward zero divergence, extrapolate the
    /// borders, advect velocity and smoke, and recolor the instances.
    /// After the step every smoke value still lies in `[0, ONE]`.
    pub fn update(&mut self, dt: i64)
        requires
            old(self).wf(),
            0 < dt,
            fits(dt as int),
        ensures
            final(self).wf(),
            final(self).density_spec() == old(self).density_spec(),
            final(self).width_spec() == old(self).width_spec(),
            final(self).height_spec() == old(self).height_spec(),
            final(self).cells_spec() == old(self).cells_spec(),
            final(self).spacing_spec() == old(self).spacing_spec(),
            final(self).fluid_seq() == old(self).fluid_seq(),
            final(self).state() == euler_step(
                old(self).state(),
                old(self).fluid_seq(),
                old(self).width_spec() as int,
                old(self).height_spec() as int,
                old(self).density_spec(),
                old(self).spacing_spec(),
                dt,
            ),
            all_in_unit(final(self).smoke_seq()),
    {
        self.inject_smoke();
        self.zero_pressure();
        self.solve_incompressibility(NUM_SWEEPS, dt);
        self.extrapolate();
        self.advect_vel(dt);
        self.advect_smoke(dt);
        self.colorize_instances();
        proof {
            assert(self.state() =~= euler_step(
                old(self).state(),
                old(self).fluid_seq(),
                old(self).width_spec() as int,
                old(self).height_spec() as int,
                old(self).density_spec(),
                old(self).spacing_spec(),
                dt,
            ));
        }
    }

    /// Horizontal velocity sample on the left face of cell `(i, j)`.
    pub fn u_at(&self, i: usize, j: usize) -> (r: i64)
        requires
            self.wf(),
            i < self.width_spec(),
            j < self.height_spec(),
        ensures
            r == self.u_seq()[i as int * self.height_spec() as int + j as int],
    {
        proof {
            lemma_grid_index(i as int, j as int, self.width as int, self.height as int);
        }
        self.u[i * self.height + j]
    }

    /// Vertical velocity sample on the bottom face of cell `(i, j)`.
    pub fn v_at(&self, i: usize, j: usize) -> (r: i64)
        requires
            self.wf(),
            i < self.width_spec(),
            j < self.height_spec(),
        ensures
            r == self.v_seq()[i as int * self.height_spec() as int + j as int],
    {
        proof {
            lemma_grid_index(i as int, j as int, self.width as int, self.height as int);
        }
        self.v[i * self.height + j]
    }

    /// Pressure accumulated for cell `(i, j)` during the last step.
    pub fn pressure_at(&self, i: usize, j: usize) -> (r: i64)
        requires
            self.wf(),
            i < self.width_spec(),
            j < self.height_spec(),
        ensures
            r == self.pressure_seq()[i as int * self.height_spec() as int + j as int],
    {
        proof {
            lemma_grid_index(i as int, j as int, self.width as int, self.height as int);
        }
        self.pressure[i * self.height + j]
    }

    /// Smoke density of cell `(i, j)`, always within `[0, ONE]`.
    pub fn smoke_at(&self, i: usize, j: usize) -> (r: i64)
        requires
            self.wf(),
            i < self.width_spec(),
            j < self.height_spec(),
        ensures
            r == self.smoke_seq()[i as int * self.height_spec() as int + j as int],
            0 <= r <= ONE,
    {
        proof {
            lemma_grid_index(i as int, j as int, self.width as int, self.height as int);
        }
        self.smoke[i * self.height + j]
    }

    /// Whether cell `(i, j)` is fluid (`true`) or solid (`false`).
    pub fn is_fluid(&self, i: usize, j: usize) -> (r: bool)
        requires
            self.wf(),
            i < self.width_spec(),
            j < self.height_spec(),
        ensures
            r == self.fluid_seq()[i as int * self.height_spec() as int + j as int],
    {
        proof {
            lemma_grid_index(i as int, j as int, self.width as int, self.height as int);
        }
        self.fluid[i * self.height + j]
    }

    /// Velocity divergence of cell `(i, j)`.
    pub fn divergence_at(&self, i: usize, j: usize) -> (r: i64)
        requires
            self.wf(),
            i + 1 < self.width_spec(),
            j + 1 < self.height_spec(),
        ensures
            r == s_div_cell(
                self.u_seq(),
                self.v_seq(),
                self.height_spec() as int,
                i as int * self.height_spec() as int + j as int,
            ),
            fits(r as int),
    {
        proof {
            lemma_grid_index(i as int, j as int, self.width as int, self.height as int);
            lemma_grid_index(i as int + 1, j as int, self.width as int, self.height as int);
            lemma_grid_index(i as int, j as int + 1, self.width as int, self.height as int);
            assert(i as int * self.height as int + j as int + self.height as int == (i as int
                + 1) * self.height as int + j as int) by (nonlinear_arith);
        }
        let n = self.height;
        let k = i * n + j;
        fx_sub(fx_add(fx_sub(self.u[k + n], self.u[k]), self.v[k + 1]), self.v[k])
    }
}

/// Base cell index for sampling: truncated division clamped into `[0, max]`.
fn cell_index(xs: i64, sp: i64, max: usize) -> (r: usize)
    requires
        fits(xs as int),
        0 < sp,
        max < MAX_DIM,
    ensures
        r as int == s_cell(xs, sp, max as int),
        r <= max,
{
    if xs <= 0 {
        0
    } else {
        let q = (xs as u64) / (sp as u64);
        if q > max as u64 {
            max
        } else {
            q as usize
        }
    }
}

/// Fractional offset of `xs` inside cell `x0`, clamped into `[0, ONE]`.
fn frac_offset(xs: i64, x0: usize, sp: i64) -> (r: i64)
    requires
        fits(xs as int),
        0 < sp <= MAX_SPACING,
        x0 < MAX_DIM,
    ensures
        r == s_frac(xs, x0 as int, sp),
        0 <= r <= ONE,
{
    proof {
        vstd::arithmetic::div_mod::lemma_div_basics(sp as int * x0 as int);
    }
    let base = fx_muldiv(sp, x0 as i64, 1);
    proof {
        assert(base as int == clip(x0 as int * sp as int)) by {
            assert(sp as int * x0 as int == x0 as int * sp as int) by (nonlinear_arith);
        }
    }
    let diff = fx_sub(xs, base);
    fx_clamp01(fx_muldiv(diff, ONE, sp))
}

/// Continuous position of grid line `idx`.
fn grid_pos(idx: usize, sp: i64) -> (r: i64)
    requires
        idx < MAX_DIM,
        0 < sp <= MAX_SPACING,
    ensures
        r == s_pos(idx as int, sp),
        fits(r as int),
{
    proof {
        vstd::arithmetic::div_mod::lemma_div_basics(sp as int * idx as int);
        assert(sp as int * idx as int == idx as int * sp as int) by (nonlinear_arith);
    }
    fx_muldiv(sp, idx as i64, 1)
}

/// An element-for-element copy of a field buffer.
fn copy_vec(src: &Vec<i64>) -> (r: Vec<i64>)
    ensures
        r@ == src@,
{
    let mut r: Vec<i64> = Vec::new();
    let mut t: usize = 0;
    while t < src.len()
        invariant
            t <= src@.len(),
            r@ =~= src@.subrange(0, t as int),
        decreases src@.len() - t,
    {
        r.push(src[t]);
        t = t + 1;
    }
    proof {
        assert(r@ =~= src@);
    }
    r
}

/// A vector of `n` copies of `value`.
fn filled_i64(n: usize, value: i64) -> (r: Vec<i64>)
    ensures
        r@ == Seq::new(n as nat, |k: int| value),
{
    let mut r: Vec<i64> = Vec::new();
    let mut t: usize = 0;
    while t < n
        invariant
            t <= n,
            r@ =~= Seq::new(t as nat, |k: int| value),
        decreases n - t,
    {
        r.push(value);
        proof {
            assert(r@ =~= Seq::new((t + 1) as nat, |k: int| value));
        }
        t = t + 1;
    }
    proof {
        assert(r@ =~= Seq::new(n as nat, |k: int| value));
    }
    r
}

fn filled_bool(n: usize, value: bool) -> (r: Vec<bool>)
    ensures
        r@ == Seq::new(n as nat, |k: int| value),
{
    let mut r: Vec<bool> = Vec::new();
    let mut t: usize = 0;
    while t < n
        invariant
            t <= n,
            r@ =~= Seq::new(t as nat, |k: int| value),
        decreases n - t,
    {
        r.push(value);
        proof {
            assert(r@ =~= Seq::new((t + 1) as nat, |k: int| value));
        }
        t = t + 1;
    }
    proof {
        assert(r@ =~= Seq::new(n as nat, |k: int| value));
    }
    r
}

} // verus!
