//! Tests for the grid-based Euler solver: construction, the projection on a
//! known-divergence field, boundary impermeability, smoke bounds,
//! colorization, and determinism.

use abstrct::euler::EulerSimulation;
use abstrct::fixed::ONE;

const DENSITY: i64 = 1000 * ONE;
const DT: i64 = 16777; // about 0.016 seconds

/// A small concrete scenario: a 4x4 all-fluid interior (6x6 padded),
/// inlet u = 10 in column 1, density 1000, spacing 1.
fn scenario() -> EulerSimulation {
    let mut sim = EulerSimulation::new(DENSITY, 4, 4, ONE);
    sim.init();
    sim
}

#[test]
fn new_pads_and_seeds_white_instances() {
    let sim = EulerSimulation::new(DENSITY, 4, 4, ONE);
    assert_eq!(sim.width, 6);
    assert_eq!(sim.height, 6);
    assert_eq!(sim.cells_num, 36);
    assert_eq!(sim.instances.len(), 36);
    // Instance 0 sits at grid cell (0, 0), shifted by (-1, -1).
    assert_eq!(sim.instances[0].position, (-ONE, -ONE, 0));
    assert_eq!(sim.instances[0].color, (ONE, ONE, ONE));
    // Instance at x = 2, y = 3 (index x * height + y).
    assert_eq!(sim.instances[2 * 6 + 3].position, (ONE, 2 * ONE, 0));
}

#[test]
fn init_marks_borders_solid_and_sets_the_inlet() {
    let sim = scenario();
    for j in 0..6 {
        assert!(!sim.is_fluid(0, j));
        assert!(!sim.is_fluid(3, 0));
        assert!(!sim.is_fluid(3, 5));
    }
    for i in 1..6 {
        for j in 1..5 {
            assert!(sim.is_fluid(i, j));
        }
    }
    for j in 1..5 {
        assert_eq!(sim.u_at(1, j), 10 * ONE);
    }
    assert_eq!(sim.u_at(2, 2), 0);
    assert_eq!(sim.v_at(2, 2), 0);
}

#[test]
fn projection_reduces_known_divergence() {
    // The inlet makes every column-1 cell start with divergence -10; after
    // 20 over-relaxed sweeps the worst interior divergence has dropped from
    // 10 to under 2.6 length units, with these exact fixed-point residuals.
    let mut sim = scenario();
    assert_eq!(sim.divergence_at(1, 2), -10 * ONE);
    sim.solve_incompressibility(20, DT);
    assert_eq!(sim.divergence_at(1, 3), 87248);
    assert_eq!(sim.divergence_at(3, 4), -2649546);
    let mut max_abs: i64 = 0;
    for i in 1..5 {
        for j in 1..5 {
            max_abs = max_abs.max(sim.divergence_at(i, j).abs());
        }
    }
    assert_eq!(max_abs, 2649546);
    assert!(max_abs < 10 * ONE);
    // The same relaxation driven further settles below 1e-3.
    sim.solve_incompressibility(80, DT);
    let mut max_abs: i64 = 0;
    for i in 1..5 {
        for j in 1..5 {
            max_abs = max_abs.max(sim.divergence_at(i, j).abs());
        }
    }
    assert!(max_abs < ONE / 1000);
}

#[test]
fn projection_fixes_a_divergence_free_field() {
    // The zero field is divergence-free; the projection leaves it exactly
    // unchanged and accumulates no pressure.
    let mut zero_grid = EulerSimulation::new(DENSITY, 4, 4, ONE);
    zero_grid.solve_incompressibility(20, DT);
    for i in 0..6 {
        for j in 0..6 {
            assert_eq!(zero_grid.u_at(i, j), 0);
            assert_eq!(zero_grid.v_at(i, j), 0);
            assert_eq!(zero_grid.pressure_at(i, j), 0);
        }
    }
}

#[test]
fn projection_never_pushes_into_solid_cells() {
    // Every velocity sample on a face shared with a solid cell keeps its
    // value through the projection: the inlet faces (left neighbor solid)
    // stay exactly at 10, and every v sample on the bottom/top walls stays
    // exactly zero.
    let mut sim = scenario();
    sim.solve_incompressibility(20, DT);
    for j in 1..5 {
        assert_eq!(sim.u_at(1, j), 10 * ONE);
    }
    for i in 0..6 {
        assert_eq!(sim.v_at(i, 1), 0);
        assert_eq!(sim.v_at(i, 5), 0);
    }
}

#[test]
fn smoke_stays_in_the_unit_interval() {
    // A domain tall enough to contain the inlet band (rows 42..59).
    let mut sim = EulerSimulation::new(DENSITY, 48, 68, ONE);
    sim.init();
    for _ in 0..3 {
        sim.update(DT);
    }
    for i in 0..50 {
        for j in 0..70 {
            let s = sim.smoke_at(i, j);
            assert!(0 <= s && s <= ONE);
        }
    }
    // Smoke was injected at the band and advected downstream, so some cell
    // near the inlet holds smoke.
    assert!(sim.smoke_at(1, 45) > 0);
}

#[test]
fn update_of_an_all_solid_grid_blacks_out() {
    // Without init every cell is solid: nothing moves, pressure stays zero,
    // and the degenerate color range maps to the midpoint ramp value
    // modulated by zero smoke, i.e. black.
    let mut sim = EulerSimulation::new(DENSITY, 4, 4, ONE);
    sim.update(DT);
    for i in 0..6 {
        for j in 0..6 {
            assert_eq!(sim.u_at(i, j), 0);
            assert_eq!(sim.v_at(i, j), 0);
            assert_eq!(sim.pressure_at(i, j), 0);
        }
    }
    assert_eq!(sim.instances[7].color, (0, 0, 0));
}

#[test]
fn color_ramp_bands() {
    // Band 0 start: pure blue.
    assert_eq!(EulerSimulation::get_color(0, 0, ONE), (0, 0, ONE));
    // Inside band 1: green ramps in, blue ramps out.
    assert_eq!(EulerSimulation::get_color(314573, 0, ONE), (0, ONE, 838860));
    // Degenerate range maps to the midpoint: green.
    assert_eq!(EulerSimulation::get_color(123, 5, 5), (0, ONE, 0));
    // A value below the range clamps up to its bottom: pure blue.
    assert_eq!(EulerSimulation::get_color(-10 * ONE, 0, ONE), (0, 0, ONE));
    // A range narrower than the top margin normalizes negative: black.
    assert_eq!(EulerSimulation::get_color(0, 0, 100), (0, 0, 0));
}

#[test]
fn full_updates_pin_exact_values() {
    // Three whole steps of the inlet scenario, pinned bit for bit. (These
    // agree with the same step evaluated in double precision to about 1e-5,
    // the fixed-point resolution.)
    let mut sim = scenario();
    for _ in 0..3 {
        sim.update(DT);
    }
    assert_eq!(sim.u_at(2, 2), 10474052);
    assert_eq!(sim.u_at(3, 3), 10484331);
    assert_eq!(sim.v_at(2, 3), -11033);
}

#[test]
fn repeated_runs_are_bit_identical() {
    let mut a = scenario();
    let mut b = scenario();
    for _ in 0..2 {
        a.update(DT);
        b.update(DT);
    }
    for i in 0..6 {
        for j in 0..6 {
            assert_eq!(a.u_at(i, j), b.u_at(i, j));
            assert_eq!(a.v_at(i, j), b.v_at(i, j));
            assert_eq!(a.pressure_at(i, j), b.pressure_at(i, j));
            assert_eq!(a.smoke_at(i, j), b.smoke_at(i, j));
        }
    }
    for k in 0..36 {
        assert_eq!(a.instances[k].color, b.instances[k].color);
        assert_eq!(a.instances[k].position, b.instances[k].position);
    }
}
