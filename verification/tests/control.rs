use particle_lab::scene::{ControlUpdate, Particle, SimulationState};

fn no_update() -> ControlUpdate {
    ControlUpdate {
        gravity: None,
        bounce: None,
        particle_count: None,
        mouse_x: None,
        mouse_y: None,
        mouse_force: None,
        reset: None,
        paused: None,
    }
}

fn small_state(n: usize) -> SimulationState {
    let mut particles = Vec::new();
    for id in 0..n {
        particles.push(Particle {
            id,
            x: 100_000 + 1_000 * id as i64,
            y: 200_000,
            vx: 10,
            vy: -10,
            mass: 1_500,
            color: (id % 6) as u8,
            trail: vec![(90_000, 190_000)],
        });
    }
    SimulationState {
        particles,
        gravity: 100,
        bounce: 800,
        particle_count: n,
        mouse_x: 600_000,
        mouse_y: 300_000,
        mouse_force: 5_000,
        paused: false,
    }
}

#[test]
fn apply_overwrites_present_fields() {
    let mut state = small_state(2);
    let mut u = no_update();
    u.gravity = Some(250);
    u.bounce = Some(900);
    u.mouse_x = Some(10_000);
    u.mouse_y = Some(20_000);
    u.mouse_force = Some(-3_000);
    u.paused = Some(true);
    state.apply_update(&u);
    assert_eq!(state.gravity, 250);
    assert_eq!(state.bounce, 900);
    assert_eq!(state.mouse_x, 10_000);
    assert_eq!(state.mouse_y, 20_000);
    assert_eq!(state.mouse_force, -3_000);
    assert!(state.paused);
    assert_eq!(state.particles.len(), 2);
    assert_eq!(state.particles[0].x, 100_000);
}

#[test]
fn apply_absent_fields_are_noops() {
    let mut state = small_state(3);
    state.apply_update(&no_update());
    assert_eq!(state.gravity, 100);
    assert_eq!(state.bounce, 800);
    assert_eq!(state.particle_count, 3);
    assert_eq!(state.mouse_x, 600_000);
    assert_eq!(state.mouse_y, 300_000);
    assert_eq!(state.mouse_force, 5_000);
    assert!(!state.paused);
    assert_eq!(state.particles.len(), 3);
    for (k, p) in state.particles.iter().enumerate() {
        assert_eq!(p.id, k);
        assert_eq!(p.x, 100_000 + 1_000 * k as i64);
        assert_eq!(p.trail, vec![(90_000, 190_000)]);
    }
}

#[test]
fn growing_population_keeps_prefix_and_appends_fresh() {
    let mut state = small_state(2);
    let mut u = no_update();
    u.particle_count = Some(5);
    state.apply_update(&u);
    assert_eq!(state.particle_count, 5);
    assert_eq!(state.particles.len(), 5);
    for k in 0..2 {
        let p = &state.particles[k];
        assert_eq!(p.id, k);
        assert_eq!(p.x, 100_000 + 1_000 * k as i64);
        assert_eq!(p.vx, 10);
        assert_eq!(p.trail, vec![(90_000, 190_000)]);
    }
    for k in 2..5 {
        let p = &state.particles[k];
        assert_eq!(p.id, k);
        assert!(p.trail.is_empty());
        assert!((50_000..1_150_000).contains(&p.x));
        assert!((50_000..550_000).contains(&p.y));
        assert!((-1_000..1_000).contains(&p.vx));
        assert!((-1_000..1_000).contains(&p.vy));
        assert!((500..2_000).contains(&p.mass));
        assert!(p.color < 6);
    }
}

#[test]
fn shrinking_population_truncates_from_tail() {
    let mut state = small_state(5);
    let mut u = no_update();
    u.particle_count = Some(2);
    state.apply_update(&u);
    assert_eq!(state.particle_count, 2);
    assert_eq!(state.particles.len(), 2);
    for k in 0..2 {
        let p = &state.particles[k];
        assert_eq!(p.id, k);
        assert_eq!(p.x, 100_000 + 1_000 * k as i64);
        assert_eq!(p.y, 200_000);
    }
}

#[test]
fn reset_regenerates_fresh_population() {
    let mut state = small_state(4);
    state.reset_particles();
    assert_eq!(state.particles.len(), 4);
    assert_eq!(state.particle_count, 4);
    assert_eq!(state.gravity, 100);
    for (k, p) in state.particles.iter().enumerate() {
        assert_eq!(p.id, k);
        assert!(p.trail.is_empty());
        assert!((50_000..1_150_000).contains(&p.x));
        assert!((50_000..550_000).contains(&p.y));
        assert!((-1_000..1_000).contains(&p.vx));
        assert!((-1_000..1_000).contains(&p.vy));
    }
}

#[test]
fn reset_sees_count_from_same_update() {
    let mut state = small_state(2);
    let mut u = no_update();
    u.particle_count = Some(7);
    u.reset = Some(true);
    state.apply_update(&u);
    assert_eq!(state.particle_count, 7);
    assert_eq!(state.particles.len(), 7);
    for (k, p) in state.particles.iter().enumerate() {
        assert_eq!(p.id, k);
        assert!(p.trail.is_empty());
    }
}

#[test]
fn reset_false_is_a_noop() {
    let mut state = small_state(3);
    let mut u = no_update();
    u.reset = Some(false);
    state.apply_update(&u);
    assert_eq!(state.particles.len(), 3);
    assert_eq!(state.particles[1].trail, vec![(90_000, 190_000)]);
}
