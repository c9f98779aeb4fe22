//! Tests for the simulator: configuration, spawning, migration and the
//! conservation and convergence behavior of whole steps.

use particle_sim::accel::UniformField;
use particle_sim::fixed::{isqrt, FP_ONE};
use particle_sim::particle::Particle;
use particle_sim::sim::{ConfigError, SimConfig, Simulator};
use particle_sim::vec2::Vec2;

const S: i64 = FP_ONE;

fn still() -> UniformField {
    UniformField { a: Vec2::new(0, 0) }
}

fn config() -> SimConfig {
    SimConfig {
        size: Vec2::new(1600 * S, 1200 * S),
        cell_length: 32 * S,
        wall: 2 * S,
        pressure: 250_000,
    }
}

fn collect(sim: &Simulator<UniformField>) -> Vec<Particle> {
    let mut all = Vec::new();
    let (sx, sy) = sim.shape();
    for x in 0..sx {
        for y in 0..sy {
            for p in sim.cell(x, y).iter() {
                all.push(*p);
            }
        }
    }
    all
}

#[test]
fn rejects_non_positive_domain() {
    let mut c = config();
    c.size = Vec2::new(0, 1200 * S);
    assert_eq!(Simulator::new(c, still()).err(), Some(ConfigError::NonPositiveDomain));
    c.size = Vec2::new(1600 * S, -3);
    assert_eq!(Simulator::new(c, still()).err(), Some(ConfigError::NonPositiveDomain));
}

#[test]
fn rejects_non_positive_cell_length() {
    let mut c = config();
    c.cell_length = 0;
    assert_eq!(Simulator::new(c, still()).err(), Some(ConfigError::NonPositiveCellLength));
}

#[test]
fn rejects_a_domain_smaller_than_one_cell() {
    let mut c = config();
    c.size = Vec2::new(10 * S, 1200 * S);
    c.cell_length = 32 * S;
    assert_eq!(Simulator::new(c, still()).err(), Some(ConfigError::ZeroShape));
}

#[test]
fn construction_yields_the_expected_shape() {
    let sim = Simulator::new(config(), still()).unwrap();
    assert_eq!(sim.shape(), (50, 37));
    assert_eq!(sim.particle_count(), 0);
}

#[test]
fn add_places_a_particle_in_its_cell() {
    let mut sim = Simulator::new(config(), still()).unwrap();
    let p = Particle::new(Vec2::new(100 * S, 700 * S), Vec2::new(0, 0), 5 * S, 1);
    sim.add(p);
    assert_eq!(sim.particle_count(), 1);
    let bb = sim.bounds();
    let (cx, cy) = bb.get_partition(&p, sim.shape());
    assert_eq!((cx, cy), (3, 21));
    assert_eq!(sim.cell(cx, cy).len(), 1);
    assert_eq!(sim.cell(cx, cy)[0].pos, p.pos);
}

#[test]
fn migration_is_idempotent_on_a_consistent_grid() {
    let mut sim = Simulator::new(config(), still()).unwrap();
    for i in 0..10 {
        let p = Particle::new(
            Vec2::new((100 + 40 * i) * S, 700 * S),
            Vec2::new(0, 0),
            5 * S,
            i as u32,
        );
        sim.add(p);
    }
    let before = collect(&sim);
    sim.migrate();
    let after = collect(&sim);
    assert_eq!(sim.particle_count(), 10);
    assert_eq!(before, after);
}

#[test]
fn migration_keeps_every_particle_in_its_computed_cell() {
    let mut sim = Simulator::new(config(), still()).unwrap();
    for i in 0..20 {
        let p = Particle::new(
            Vec2::new((50 + 71 * i) * S, (30 + 53 * i) * S),
            Vec2::new(37 * S, -21 * S),
            5 * S,
            i as u32,
        );
        sim.add(p);
    }
    sim.step(8_333);
    sim.migrate();
    let bb = sim.bounds();
    let (sx, sy) = sim.shape();
    let mut seen = 0;
    for x in 0..sx {
        for y in 0..sy {
            for p in sim.cell(x, y).iter() {
                assert_eq!(bb.get_partition(p, (sx, sy)), (x, y));
                seen += 1;
            }
        }
    }
    assert_eq!(seen, 20);
}

#[test]
fn clear_discards_every_particle_but_keeps_the_shape() {
    let mut sim = Simulator::new(config(), still()).unwrap();
    for i in 0..5 {
        sim.add(Particle::new(Vec2::new(100 * S, (100 + i) * S), Vec2::new(0, 0), 5 * S, 0));
    }
    sim.clear();
    assert_eq!(sim.particle_count(), 0);
    assert_eq!(sim.shape(), (50, 37));
    assert!(collect(&sim).is_empty());
}

#[test]
fn steps_conserve_the_particle_count() {
    let gravity = UniformField { a: Vec2::new(0, 500 * S) };
    let mut sim = Simulator::new(config(), gravity).unwrap();
    for i in 0..25 {
        let p = Particle::new(
            Vec2::new((700 + 8 * (i % 5)) * S, (500 + 8 * (i / 5)) * S),
            Vec2::new(20 * S, -10 * S),
            5 * S,
            i as u32,
        );
        sim.add(p);
    }
    assert_eq!(sim.particle_count(), 25);
    for _ in 0..30 {
        sim.step(8_333);
        assert_eq!(sim.particle_count(), 25);
        assert_eq!(collect(&sim).len(), 25);
    }
    sim.step_substeps(100_000, 10);
    assert_eq!(sim.particle_count(), 25);
}

#[test]
fn a_single_particle_falls_under_gravity() {
    let gravity = UniformField { a: Vec2::new(0, 500 * S) };
    let mut sim = Simulator::new(config(), gravity).unwrap();
    sim.add(Particle::new(Vec2::new(800 * S, 600 * S), Vec2::new(0, 0), 5 * S, 0));
    sim.step(8_333);
    let all = collect(&sim);
    assert_eq!(all.len(), 1);
    // exactly acceleration * dt^2 on the y axis, nothing on x
    assert_eq!(all[0].pos, Vec2::new(800_000_000, 600_034_719));
}

#[test]
fn overlap_decreases_monotonically_until_separation() {
    // Two resting particles placed with overlap 4 and no external
    // acceleration: repeated stepping must never deepen the overlap, and
    // must separate them within a bounded number of steps.
    let mut sim = Simulator::new(config(), still()).unwrap();
    sim.add(Particle::new(Vec2::new(797 * S, 600 * S), Vec2::new(0, 0), 5 * S, 0));
    sim.add(Particle::new(Vec2::new(803 * S, 600 * S), Vec2::new(0, 0), 5 * S, 1));
    let overlap_of = |sim: &Simulator<UniformField>| -> i64 {
        let all = collect(sim);
        assert_eq!(all.len(), 2);
        let dx = (all[0].pos.x - all[1].pos.x) as i128;
        let dy = (all[0].pos.y - all[1].pos.y) as i128;
        let dist = isqrt((dx * dx + dy * dy) as u128) as i64;
        all[0].radius + all[1].radius - dist
    };
    let mut prev = overlap_of(&sim);
    assert_eq!(prev, 4 * S);
    let mut separated = false;
    for _ in 0..300 {
        sim.step(8_333);
        let cur = overlap_of(&sim);
        assert!(cur <= prev);
        prev = cur;
        if cur <= 0 {
            separated = true;
            break;
        }
    }
    assert!(separated);
}

#[test]
fn a_crowd_stays_inside_the_domain() {
    // 441 particles on a 21-by-21 grid in a 1600x1200 domain, 100
    // substeps: the count is conserved and every particle stays at least
    // the wall thickness plus its own radius away from the domain edge.
    let mut sim = Simulator::new(config(), still()).unwrap();
    for i in 0..21 {
        for j in 0..21 {
            let p = Particle::new(
                Vec2::new((720 + 8 * i) * S, (520 + 8 * j) * S),
                Vec2::new(0, 0),
                5 * S,
                (i * 21 + j) as u32,
            );
            sim.add(p);
        }
    }
    assert_eq!(sim.particle_count(), 441);
    sim.step_substeps(833_300, 100);
    assert_eq!(sim.particle_count(), 441);
    let all = collect(&sim);
    assert_eq!(all.len(), 441);
    let wall = 2 * S;
    for p in all.iter() {
        assert!(p.pos.x - p.radius >= wall);
        assert!(p.pos.x + p.radius <= 1600 * S - wall);
        assert!(p.pos.y - p.radius >= wall);
        assert!(p.pos.y + p.radius <= 1200 * S - wall);
    }
}

#[test]
fn stepping_an_empty_simulator_is_harmless() {
    let mut sim = Simulator::new(config(), still()).unwrap();
    sim.step(8_333);
    sim.step_substeps(100_000, 10);
    sim.migrate();
    assert_eq!(sim.particle_count(), 0);
}

#[test]
fn overlapping_neighbors_in_one_cell_separate() {
    let mut sim = Simulator::new(config(), still()).unwrap();
    sim.add(Particle::new(Vec2::new(800 * S, 600 * S), Vec2::new(0, 0), 5 * S, 0));
    sim.add(Particle::new(Vec2::new(802 * S, 600 * S), Vec2::new(0, 0), 5 * S, 1));
    sim.step(8_333);
    let all = collect(&sim);
    assert!(all[0].pos.x != all[1].pos.x);
    let left = all.iter().find(|p| p.color == 0).unwrap();
    let right = all.iter().find(|p| p.color == 1).unwrap();
    assert!(left.pos.x < 800 * S);
    assert!(right.pos.x > 802 * S);
}

#[test]
fn overlapping_neighbors_across_a_column_boundary_separate() {
    // cells are 32 wide, so these two straddle the boundary between
    // columns 0 and 1; only the inter-column pass can resolve them
    let mut sim = Simulator::new(config(), still()).unwrap();
    sim.add(Particle::new(Vec2::new(31 * S, 50 * S), Vec2::new(0, 0), 5 * S, 0));
    sim.add(Particle::new(Vec2::new(33 * S, 50 * S), Vec2::new(0, 0), 5 * S, 1));
    sim.step(8_333);
    let all = collect(&sim);
    let left = all.iter().find(|p| p.color == 0).unwrap();
    let right = all.iter().find(|p| p.color == 1).unwrap();
    assert!(left.pos.x < 31 * S);
    assert!(right.pos.x > 33 * S);
}

#[test]
fn overlapping_neighbors_across_a_row_boundary_separate() {
    // rows 0 and 1 of one column; resolved by the interleaved row pairs
    let mut sim = Simulator::new(config(), still()).unwrap();
    sim.add(Particle::new(Vec2::new(50 * S, 31 * S), Vec2::new(0, 0), 5 * S, 0));
    sim.add(Particle::new(Vec2::new(50 * S, 33 * S), Vec2::new(0, 0), 5 * S, 1));
    sim.step(8_333);
    let all = collect(&sim);
    let top = all.iter().find(|p| p.color == 0).unwrap();
    let bottom = all.iter().find(|p| p.color == 1).unwrap();
    assert!(top.pos.y < 31 * S);
    assert!(bottom.pos.y > 33 * S);
}

#[test]
fn overlapping_diagonal_neighbors_separate() {
    // cells (0,0) and (1,1): covered by the skewed inter-column
    // alignments
    let mut sim = Simulator::new(config(), still()).unwrap();
    sim.add(Particle::new(Vec2::new(31 * S, 31 * S), Vec2::new(0, 0), 5 * S, 0));
    sim.add(Particle::new(Vec2::new(33 * S, 33 * S), Vec2::new(0, 0), 5 * S, 1));
    sim.step(8_333);
    let all = collect(&sim);
    let a = all.iter().find(|p| p.color == 0).unwrap();
    let b = all.iter().find(|p| p.color == 1).unwrap();
    assert!(a.pos.x < 31 * S && a.pos.y < 31 * S);
    assert!(b.pos.x > 33 * S && b.pos.y > 33 * S);
}

#[test]
fn radius_saturates_at_the_coordinate_limit() {
    let p = Particle::new(Vec2::new(0, 0), Vec2::new(0, 0), i64::MIN, 0);
    assert_eq!(p.radius, particle_sim::fixed::COORD_LIMIT);
}
