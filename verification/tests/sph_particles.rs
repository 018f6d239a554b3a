//! Tests for the SPH solver: configuration, dam seeding, the all-pairs
//! density pass, pair-force antisymmetry, wall containment with the
//! velocity bounce, and determinism.

use abstrct::fixed::ONE;
use abstrct::instance::Vec2;
use abstrct::sph::{SPHSimulation, SphConfig, STANDARD_GRAVITY_Y};

const W: i64 = 2000 * ONE;
const H: i64 = 2000 * ONE;

#[test]
fn standard_config_precomputes_the_kernels() {
    let cfg = SphConfig::standard();
    assert_eq!(cfg.h, 16 * ONE);
    assert_eq!(cfg.hsq, 256 * ONE);
    assert_eq!(cfg.stiffness, 3000 * ONE);
    assert_eq!(cfg.rest_density, 1000 * ONE);
    assert_eq!(cfg.viscosity, 100 * ONE);
    assert_eq!(cfg.dt, 105);
    // pi * h^8 * ONE^2 and pi * h^5 * ONE^2, staged in integer arithmetic.
    assert_eq!(cfg.poly6_den, 14835753109900212839487u128);
    assert_eq!(cfg.spiky_den, 3622010036596731650u128);
}

#[test]
fn new_starts_empty() {
    let sim = SPHSimulation::new(W, H, 64, SphConfig::standard());
    assert_eq!(sim.num_particles, 0);
    assert_eq!(sim.max_particles, 64);
    assert_eq!(sim.position.len(), 0);
    assert_eq!(sim.instances.len(), 0);
}

#[test]
fn add_particle_appends_a_resting_particle() {
    let mut sim = SPHSimulation::new(W, H, 8, SphConfig::standard());
    sim.add_particle(500 * ONE, 600 * ONE);
    assert_eq!(sim.num_particles, 1);
    assert_eq!(sim.position[0], Vec2 { x: 500 * ONE, y: 600 * ONE });
    assert_eq!(sim.velocity_at(0), Vec2 { x: 0, y: 0 });
    assert_eq!(sim.force_at(0), Vec2 { x: 0, y: 0 });
    assert_eq!(sim.rho_at(0), ONE);
    assert_eq!(sim.pressure_at(0), 0);
    assert_eq!(sim.mass_at(0), ONE);
}

#[test]
fn init_seeds_the_dam() {
    // With h = 16 the dam region holds 39 rows of 41 particles = 1599,
    // fewer than both the requested 4096 and the capacity.
    let mut sim = SPHSimulation::new(W, H, 100000, SphConfig::standard());
    sim.init();
    assert_eq!(sim.num_particles, 1599);
    // First particle: two spacings above the floor, one spacing right of
    // the dam's left edge, plus a jitter below one unit.
    assert_eq!(sim.position[0].y, 32 * ONE);
    assert!(656 * ONE <= sim.position[0].x && sim.position[0].x < 657 * ONE);
    // First particle of the second row.
    assert_eq!(sim.position[41].y, 48 * ONE);
    assert!(656 * ONE <= sim.position[41].x && sim.position[41].x < 657 * ONE);
    // Every seeded particle is at rest with unit density and mass.
    for k in 0..sim.num_particles {
        assert_eq!(sim.velocity_at(k), Vec2 { x: 0, y: 0 });
        assert_eq!(sim.rho_at(k), ONE);
        assert_eq!(sim.mass_at(k), ONE);
        assert_eq!(sim.pressure_at(k), 0);
    }
}

#[test]
fn init_respects_the_capacity() {
    let mut sim = SPHSimulation::new(W, H, 100, SphConfig::standard());
    sim.init();
    assert_eq!(sim.num_particles, 100);
}

#[test]
fn density_pass_matches_the_kernel_formula() {
    // Two particles five units apart, both within the kernel radius 16.
    let mut sim = SPHSimulation::new(W, H, 8, SphConfig::standard());
    sim.add_particle(500 * ONE, 500 * ONE);
    sim.add_particle(505 * ONE, 500 * ONE);
    sim.compute_d_p();
    // Self plus neighbor contributions of 4 (hsq - r2)^3 / (pi h^8).
    assert_eq!(sim.rho_at(0), 9046);
    assert_eq!(sim.rho_at(1), 9046);
    // pressure = stiffness * (rho - rest density), far below rest density.
    assert_eq!(sim.pressure_at(0), -3145700862000);
    assert_eq!(sim.pressure_at(1), -3145700862000);
}

#[test]
fn pressure_pair_forces_are_antisymmetric() {
    // Symmetric two-particle configuration: equal masses and densities, so
    // the pressure-pair forces are exact negatives along the axis joining
    // the particles, and the vertical components are both pure gravity.
    let mut sim = SPHSimulation::new(W, H, 8, SphConfig::standard());
    sim.add_particle(500 * ONE, 500 * ONE);
    sim.add_particle(505 * ONE, 500 * ONE);
    sim.compute_d_p();
    sim.compute_forces();
    let f0 = sim.force_at(0);
    let f1 = sim.force_at(1);
    assert_eq!(f0.x, -1473047628944);
    assert_eq!(f1.x, 1473047628944);
    assert_eq!(f0.x, -f1.x);
    assert_ne!(f0.x, 0);
    assert_eq!(f0.y, f1.y);
    assert_eq!(f0.y, -1192373256);
}

#[test]
fn particles_stay_inside_the_walls_and_bounce() {
    // A particle just above the floor margin falls under gravity; every
    // integration clamps it inside [h, dim - h] on both axes, and the step
    // that hits the floor flips the vertical velocity's sign.
    let cfg = SphConfig::new(
        16 * ONE,
        3000 * ONE,
        1000 * ONE,
        100 * ONE,
        Vec2 { x: 0, y: STANDARD_GRAVITY_Y },
        52429, // a coarse step of about 0.05 to reach the wall quickly
    );
    let mut sim = SPHSimulation::new(W, H, 4, cfg);
    sim.add_particle(500 * ONE, 17 * ONE);
    let mut bounced = false;
    for _ in 0..10 {
        let vy_before = sim.velocity_at(0).y;
        sim.update(0);
        let p = sim.position[0];
        assert!(16 * ONE <= p.x && p.x <= W - 16 * ONE);
        assert!(16 * ONE <= p.y && p.y <= H - 16 * ONE);
        let vy_after = sim.velocity_at(0).y;
        if p.y == 16 * ONE && vy_before <= 0 && vy_after > 0 {
            bounced = true;
        }
    }
    assert!(bounced);
}

#[test]
fn update_rebuilds_blue_instances() {
    let mut sim = SPHSimulation::new(W, H, 8, SphConfig::standard());
    sim.add_particle(500 * ONE, 500 * ONE);
    sim.add_particle(505 * ONE, 500 * ONE);
    sim.update(0);
    assert_eq!(sim.instances.len(), 2);
    for k in 0..2 {
        let p = sim.position[k];
        assert_eq!(sim.instances[k].position, (p.x, p.y, 0));
        assert_eq!(sim.instances[k].color, (0, 0, ONE));
    }
}

#[test]
fn update_is_deterministic_after_seeding() {
    // The only randomness is the jitter drawn during seeding; two solvers
    // holding the same particles evolve bit-identically.
    let mut a = SPHSimulation::new(W, H, 8, SphConfig::standard());
    let mut b = SPHSimulation::new(W, H, 8, SphConfig::standard());
    for sim in [&mut a, &mut b] {
        sim.add_particle(600 * ONE, 600 * ONE);
        sim.add_particle(610 * ONE, 605 * ONE);
        sim.add_particle(604 * ONE, 612 * ONE);
    }
    for _ in 0..3 {
        a.update(0);
        b.update(0);
    }
    for k in 0..3 {
        assert_eq!(a.position[k], b.position[k]);
        assert_eq!(a.velocity_at(k), b.velocity_at(k));
        assert_eq!(a.rho_at(k), b.rho_at(k));
        assert_eq!(a.pressure_at(k), b.pressure_at(k));
        assert_eq!(a.force_at(k), b.force_at(k));
    }
}
