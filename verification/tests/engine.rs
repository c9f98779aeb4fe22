//! Unit tests for the fixed-point helpers, the particle, the pairwise
//! collision resolution and the bounding box.

use particle_sim::bounds::BoundingBox;
use particle_sim::fixed::{isqrt, sat_i64, div_trunc, COORD_LIMIT, FP_ONE};
use particle_sim::particle::Particle;
use particle_sim::vec2::Vec2;

const S: i64 = FP_ONE;

#[test]
fn isqrt_exact_values() {
    assert_eq!(isqrt(0), 0);
    assert_eq!(isqrt(1), 1);
    assert_eq!(isqrt(35), 5);
    assert_eq!(isqrt(36), 6);
    assert_eq!(isqrt(37), 6);
    assert_eq!(isqrt(36_000_000_000_000), 6_000_000);
    assert_eq!(isqrt(10_000_000_000_000_000_000_000_000), 3_162_277_660_168);
}

#[test]
fn saturation_clamps_into_coordinate_range() {
    assert_eq!(sat_i64(5), 5);
    assert_eq!(sat_i64(-5), -5);
    assert_eq!(sat_i64((COORD_LIMIT as i128) + 10), COORD_LIMIT);
    assert_eq!(sat_i64(-(COORD_LIMIT as i128) - 10), -COORD_LIMIT);
}

#[test]
fn division_truncates_toward_zero() {
    assert_eq!(div_trunc(7, 2), 3);
    assert_eq!(div_trunc(-7, 2), -3);
    assert_eq!(div_trunc(1, 2), 0);
    assert_eq!(div_trunc(-1, 2), 0);
}

#[test]
fn particle_new_normalizes_radius_and_velocity() {
    let p = Particle::new(Vec2::new(10 * S, 20 * S), Vec2::new(3 * S, -4 * S), -5 * S, 7);
    assert_eq!(p.radius, 5 * S);
    assert_eq!(p.pos, Vec2::new(10 * S, 20 * S));
    assert_eq!(p.prev_pos, Vec2::new(7 * S, 24 * S));
    assert_eq!(p.prev_dt, S);
    assert_eq!(p.color, 7);
}

#[test]
fn verlet_advances_along_velocity_and_acceleration() {
    // velocity (1, 2) per second over a half-second substep, with a
    // downward pull of 2 units/s^2 on the y axis.
    let mut p = Particle::new(Vec2::new(10 * S, 20 * S), Vec2::new(500_000, S), 5 * S, 0);
    assert_eq!(p.prev_pos, Vec2::new(9 * S + 500_000, 19 * S));
    p.update_verlet(500_000, Vec2::new(0, -2 * S));
    assert_eq!(p.pos, Vec2::new(10_250_000, 20_000_000));
    assert_eq!(p.prev_pos, Vec2::new(10 * S, 20 * S));
    assert_eq!(p.prev_dt, 500_000);
}

#[test]
fn collision_pushes_overlapping_particles_apart_symmetrically() {
    // Two particles of radius 5 at (0,0) and (6,0): overlap 4. With
    // pressure 0.5 and one substep of a whole second the penalty force is
    // 0.8, so each particle moves by 0.5 * 4 * 0.8 / 2 = 0.8 along x,
    // symmetric about the midpoint (3, 0).
    let mut a = Particle::new(Vec2::new(0, 0), Vec2::new(0, 0), 5 * S, 0);
    let mut b = Particle::new(Vec2::new(6 * S, 0), Vec2::new(0, 0), 5 * S, 0);
    a.update_collision(S, 500_000, &mut b);
    assert_eq!(a.pos, Vec2::new(-800_000, 0));
    assert_eq!(b.pos, Vec2::new(6_800_000, 0));
    // displacements are exactly opposite
    assert_eq!(a.pos.x - 0, -(b.pos.x - 6 * S));
    assert_eq!(a.pos.y, 0);
    assert_eq!(b.pos.y, 0);
    // nothing else moved
    assert_eq!(a.prev_pos, Vec2::new(0, 0));
    assert_eq!(b.prev_pos, Vec2::new(6 * S, 0));
    assert_eq!(a.radius, 5 * S);
    assert_eq!(b.radius, 5 * S);
}

#[test]
fn collision_resolves_along_the_center_line_diagonally() {
    let mut a = Particle::new(Vec2::new(0, 0), Vec2::new(0, 0), 4 * S, 0);
    let mut b = Particle::new(Vec2::new(3 * S, 4 * S), Vec2::new(0, 0), 4 * S, 0);
    a.update_collision(8_333, 250_000, &mut b);
    assert_eq!(a.pos, Vec2::new(-224_376, -299_169));
    assert_eq!(b.pos, Vec2::new(3_224_376, 4_299_169));
}

#[test]
fn collision_ignores_separated_particles() {
    let mut a = Particle::new(Vec2::new(0, 0), Vec2::new(0, 0), 2 * S, 0);
    let mut b = Particle::new(Vec2::new(10 * S, 0), Vec2::new(0, 0), 2 * S, 0);
    a.update_collision(S, 500_000, &mut b);
    assert_eq!(a.pos, Vec2::new(0, 0));
    assert_eq!(b.pos, Vec2::new(10 * S, 0));
}

#[test]
fn collision_with_coincident_centers_is_a_no_op() {
    // The distance is clamped to one fixed-point step, but the center
    // offset is zero in both components, so no direction exists to push
    // along and both particles stay put.
    let mut a = Particle::new(Vec2::new(S, S), Vec2::new(0, 0), 3 * S, 0);
    let mut b = Particle::new(Vec2::new(S, S), Vec2::new(0, 0), 3 * S, 0);
    a.update_collision(S, 500_000, &mut b);
    assert_eq!(a.pos, Vec2::new(S, S));
    assert_eq!(b.pos, Vec2::new(S, S));
}

#[test]
fn bounding_box_orders_corners_and_normalizes_wall() {
    let bb = BoundingBox::new(Vec2::new(5 * S, -2 * S), Vec2::new(-3 * S, 7 * S), -2 * S);
    assert_eq!(bb.min, Vec2::new(-3 * S, -2 * S));
    assert_eq!(bb.max, Vec2::new(5 * S, 7 * S));
    assert_eq!(bb.wall, 2 * S);
}

#[test]
fn containment_leaves_an_inside_particle_unmoved() {
    let bb = BoundingBox::new(Vec2::new(0, 0), Vec2::new(1600 * S, 1200 * S), 2 * S);
    let mut p = Particle::new(Vec2::new(800 * S, 600 * S), Vec2::new(0, 0), 5 * S, 0);
    bb.update_bounds(&mut p);
    assert_eq!(p.pos, Vec2::new(800 * S, 600 * S));
}

#[test]
fn containment_clamps_a_particle_near_the_wall() {
    let bb = BoundingBox::new(Vec2::new(0, 0), Vec2::new(1600 * S, 1200 * S), 2 * S);
    let mut p = Particle::new(Vec2::new(3 * S, 600 * S), Vec2::new(0, 0), 5 * S, 0);
    bb.update_bounds(&mut p);
    // clamped to min.x + wall + radius = 7
    assert_eq!(p.pos, Vec2::new(7 * S, 600 * S));
}

#[test]
fn get_partition_maps_positions_to_cells() {
    let bb = BoundingBox::new(Vec2::new(0, 0), Vec2::new(1600 * S, 1200 * S), 2 * S);
    let p = Particle::new(Vec2::new(100 * S, 700 * S), Vec2::new(0, 0), 5 * S, 0);
    assert_eq!(bb.get_partition(&p, (50, 37)), (3, 21));
    // outside positions clamp into the grid
    let q = Particle::new(Vec2::new(-5, 1300 * S), Vec2::new(0, 0), 5 * S, 0);
    assert_eq!(bb.get_partition(&q, (50, 37)), (0, 36));
}
