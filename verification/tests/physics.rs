use particle_lab::scene::{Particle, SimulationState};

fn particle_at(id: usize, x: i64, y: i64, vx: i64, vy: i64) -> Particle {
    Particle { id, x, y, vx, vy, mass: 1000, color: 0, trail: Vec::new() }
}

fn quiet_state(particles: Vec<Particle>) -> SimulationState {
    let count = particles.len();
    SimulationState {
        particles,
        gravity: 0,
        bounce: 1000,
        particle_count: count,
        mouse_x: 600_000,
        mouse_y: 300_000,
        mouse_force: 0,
        paused: false,
    }
}

#[test]
fn paused_step_is_noop() {
    let mut state = quiet_state(vec![particle_at(0, 123_000, 456_000, 7_000, -8_000)]);
    state.gravity = 100;
    state.mouse_force = 5_000;
    state.paused = true;
    state.update_physics();
    let p = &state.particles[0];
    assert_eq!(p.x, 123_000);
    assert_eq!(p.y, 456_000);
    assert_eq!(p.vx, 7_000);
    assert_eq!(p.vy, -8_000);
    assert!(p.trail.is_empty());
    assert_eq!(state.particles.len(), 1);
}

#[test]
fn free_particle_is_unmoved() {
    // Gravity 0, bounce 1, pointer force 0, one particle at rest at the
    // centre: nothing acts on it except the trail gaining its position.
    let mut state = quiet_state(vec![particle_at(0, 600_000, 300_000, 0, 0)]);
    state.update_physics();
    let p = &state.particles[0];
    assert_eq!(p.x, 600_000);
    assert_eq!(p.y, 300_000);
    assert_eq!(p.vx, 0);
    assert_eq!(p.vy, 0);
    assert_eq!(p.trail, vec![(600_000, 300_000)]);
}

#[test]
fn wall_bounce_reflects_and_clamps() {
    // A particle at x = 5 moving left at 10 with bounce 0.8 crosses the left
    // wall: the velocity reflects to +8 (then damps to 7.992) and the
    // position clamps to the wall.
    let mut state = quiet_state(vec![particle_at(0, 5_000, 300_000, -10_000, 0)]);
    state.bounce = 800;
    state.update_physics();
    let p = &state.particles[0];
    assert_eq!(p.x, 0);
    assert_eq!(p.vx, 7_992);
    assert_eq!(p.y, 300_000);
    assert_eq!(p.vy, 0);
}

#[test]
fn close_pair_repels() {
    // Two particles 10 units apart (inside the 20-unit radius) and no other
    // forces: they acquire opposite horizontal nudges pushing them apart.
    let mut state = quiet_state(vec![
        particle_at(0, 100_000, 100_000, 0, 0),
        particle_at(1, 110_000, 100_000, 0, 0),
    ]);
    state.update_physics();
    let p0 = &state.particles[0];
    let p1 = &state.particles[1];
    assert_eq!(p0.vx, -50);
    assert_eq!(p1.vx, 50);
    assert_eq!(p0.vy, 0);
    assert_eq!(p1.vy, 0);
    assert!(p0.vx < 0 && p1.vx > 0);
}

#[test]
fn trail_is_bounded_and_chronological() {
    let mut state = quiet_state(vec![particle_at(0, 600_000, 100_000, 0, 0)]);
    state.gravity = 100;
    let mut seen: Vec<(i64, i64)> = Vec::new();
    for _ in 0..15 {
        seen.push((state.particles[0].x, state.particles[0].y));
        state.update_physics();
        assert!(state.particles[0].trail.len() <= 10);
    }
    let trail = &state.particles[0].trail;
    assert_eq!(trail.len(), 10);
    // The trail is the last ten pre-step positions, oldest first.
    assert_eq!(trail.as_slice(), &seen[5..15]);
}

#[test]
fn positions_clamped_after_step() {
    // Overshooting the floor reflects the vertical velocity and clamps y.
    let mut state = quiet_state(vec![particle_at(0, 600_000, 599_000, 0, 50_000)]);
    state.bounce = 800;
    state.update_physics();
    let p = &state.particles[0];
    assert_eq!(p.y, 600_000);
    assert_eq!(p.vy, -39_960);
    // Even an absurd velocity leaves the particle inside the world.
    let mut wild = quiet_state(vec![particle_at(0, 5_000, 5_000, i64::MIN, i64::MAX)]);
    wild.update_physics();
    let q = &wild.particles[0];
    assert!(0 <= q.x && q.x <= 1_200_000);
    assert!(0 <= q.y && q.y <= 600_000);
}

#[test]
fn mouse_attracts_particle() {
    // Pointer 100 units to the right with force 5: the kick is
    // dx * force * 10^7 / d^3 = 5 milli-units toward the pointer.
    let mut state = quiet_state(vec![particle_at(0, 500_000, 300_000, 0, 0)]);
    state.mouse_force = 5_000;
    state.update_physics();
    let p = &state.particles[0];
    assert_eq!(p.x, 500_005);
    assert_eq!(p.vx, 4); // 5 damped by 0.999, truncated
    assert_eq!(p.vy, 0);
}

#[test]
fn mouse_repels_with_negative_force() {
    let mut state = quiet_state(vec![particle_at(0, 500_000, 300_000, 0, 0)]);
    state.mouse_force = -5_000;
    state.update_physics();
    let p = &state.particles[0];
    assert_eq!(p.x, 499_995);
    assert_eq!(p.vx, -4);
}

#[test]
fn gravity_accelerates_downward() {
    let mut state = quiet_state(vec![particle_at(0, 600_000, 100_000, 0, 0)]);
    state.gravity = 100;
    state.update_physics();
    let p = &state.particles[0];
    // vy gains 100, y integrates by 100, then damping trims vy to 99.
    assert_eq!(p.y, 100_100);
    assert_eq!(p.vy, 99);
}

#[test]
fn new_seeds_five_hundred_particles() {
    let state = SimulationState::new();
    assert_eq!(state.particles.len(), 500);
    assert_eq!(state.particle_count, 500);
    assert_eq!(state.gravity, 100);
    assert_eq!(state.bounce, 800);
    assert_eq!(state.mouse_x, 600_000);
    assert_eq!(state.mouse_y, 300_000);
    assert_eq!(state.mouse_force, 5_000);
    assert!(!state.paused);
    for (k, p) in state.particles.iter().enumerate() {
        assert_eq!(p.id, k);
        assert!(p.trail.is_empty());
        assert!((50_000..1_200_000).contains(&p.x));
        assert!((50_000..600_000).contains(&p.y));
        assert!((-2_000..2_000).contains(&p.vx));
        assert!((-2_000..2_000).contains(&p.vy));
        assert!((500..2_000).contains(&p.mass));
        assert!(p.color < 6);
    }
}

#[test]
fn saturating_helpers_saturate() {
    assert_eq!(particle_lab::num::sat_add64(i64::MAX, 1), i64::MAX);
    assert_eq!(particle_lab::num::sat_add64(i64::MIN, -1), i64::MIN);
    assert_eq!(particle_lab::num::sat_add64(2, 3), 5);
    assert_eq!(particle_lab::num::sat_sub64(i64::MIN, 1), i64::MIN);
    assert_eq!(particle_lab::num::sat_sub64(7, 3), 4);
}

#[test]
fn integer_sqrt_is_exact() {
    assert_eq!(particle_lab::num::isqrt(0), 0);
    assert_eq!(particle_lab::num::isqrt(1), 1);
    assert_eq!(particle_lab::num::isqrt(99), 9);
    assert_eq!(particle_lab::num::isqrt(100), 10);
    assert_eq!(particle_lab::num::isqrt(10_000_000_000), 100_000);
}
