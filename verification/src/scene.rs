//! The shared scene: particles, global parameters, and particle generation.

use rand::Rng;
use vstd::prelude::*;

verus! {

/// World width in milli-units (1200 world units).
pub const WIDTH: i64 = 1_200_000;

/// World height in milli-units (600 world units).
pub const HEIGHT: i64 = 600_000;

/// Milli-units per world unit.
pub const UNIT: i64 = 1000;

/// A trail keeps at most this many past positions.
pub const TRAIL_MAX: usize = 10;

/// Number of colors in the palette (the palette itself is cosmetic and lives
/// with the presentation layer; the scene stores an index below this bound).
pub const PALETTE_LEN: i64 = 6;

/// Mathematical image of one particle: positions and velocities as unbounded
/// integers (milli-units), the trail as a sequence of past positions.
#[verifier::ext_equal]
pub struct ParticleModel {
    pub id: int,
    pub x: int,
    pub y: int,
    pub vx: int,
    pub vy: int,
    pub mass: int,
    pub color: int,
    pub trail: Seq<(int, int)>,
}

/// One particle of the scene, in fixed-point milli-units.
pub struct Particle {
    /// Stable identity; equals the particle's index in the scene.
    pub id: usize,
    pub x: i64,
    pub y: i64,
    pub vx: i64,
    pub vy: i64,
    /// Stored attribute; the force model does not read it.
    pub mass: i64,
    /// Index into the presentation palette, below `PALETTE_LEN`.
    pub color: u8,
    /// Recent positions, oldest first, most recent last.
    pub trail: Vec<(i64, i64)>,
}

impl View for Particle {
    type V = ParticleModel;

    open spec fn view(&self) -> ParticleModel {
        ParticleModel {
            id: self.id as int,
            x: self.x as int,
            y: self.y as int,
            vx: self.vx as int,
            vy: self.vy as int,
            mass: self.mass as int,
            color: self.color as int,
            trail: self.trail@.map_values(|q: (i64, i64)| (q.0 as int, q.1 as int)),
        }
    }
}

/// The views of a sequence of particles.
pub open spec fn pviews(s: Seq<Particle>) -> Seq<ParticleModel> {
    s.map_values(|p: Particle| p@)
}

/// Mathematical image of the whole scene.
#[verifier::ext_equal]
pub struct SceneModel {
    pub particles: Seq<ParticleModel>,
    pub gravity: int,
    pub bounce: int,
    pub particle_count: int,
    pub mouse_x: int,
    pub mouse_y: int,
    pub mouse_force: int,
    pub paused: bool,
}

/// The one shared aggregate every session reads and mutates (the exclusive
/// lock that guards it between tasks lives with the transport layer).
/// Scalar parameters are fixed-point milli-units: `gravity == 100` is an
/// acceleration of 0.1 world units per tick, `bounce == 800` a restitution
/// of 0.8, `mouse_force == 5000` a pointer force of 5.
pub struct SimulationState {
    pub particles: Vec<Particle>,
    pub gravity: i64,
    pub bounce: i64,
    /// Target population; equals `particles.len()` outside a resize.
    pub particle_count: usize,
    pub mouse_x: i64,
    pub mouse_y: i64,
    pub mouse_force: i64,
    pub paused: bool,
}

impl View for SimulationState {
    type V = SceneModel;

    open spec fn view(&self) -> SceneModel {
        SceneModel {
            particles: pviews(self.particles@),
            gravity: self.gravity as int,
            bounce: self.bounce as int,
            particle_count: self.particle_count as int,
            mouse_x: self.mouse_x as int,
            mouse_y: self.mouse_y as int,
            mouse_force: self.mouse_force as int,
            paused: self.paused,
        }
    }
}

/// A partial update from one inbound control message: absent fields are
/// no-ops, all present fields apply together.
pub struct ControlUpdate {
    pub gravity: Option<i64>,
    pub bounce: Option<i64>,
    pub particle_count: Option<usize>,
    pub mouse_x: Option<i64>,
    pub mouse_y: Option<i64>,
    pub mouse_force: Option<i64>,
    pub reset: Option<bool>,
    pub paused: Option<bool>,
}

/// Structural well-formedness of a scene: each particle's id is its index,
/// its trail is bounded, its color indexes the palette, and its position is
/// inside the world; outside a resize the population matches the target.
pub open spec fn scene_wf(sc: SceneModel) -> bool {
    &&& sc.particle_count == sc.particles.len()
    &&& forall|k: int|
        0 <= k < sc.particles.len() ==> {
            let p = #[trigger] sc.particles[k];
            &&& p.id == k
            &&& p.trail.len() <= TRAIL_MAX
            &&& 0 <= p.color < PALETTE_LEN
            &&& 0 <= p.x <= WIDTH
            &&& 0 <= p.y <= HEIGHT
        }
}

/// Relies on `rand::Rng::gen_range` (via `rand::thread_rng`): for a non-empty
/// half-open range `lo..hi` it returns a value in `[lo, hi)`; it panics only
/// on an empty range, which the precondition excludes.
#[verifier::external_body]
fn random_in_range(lo: i64, hi: i64) -> (r: i64)
    requires
        lo < hi,
    ensures
        lo <= r < hi,
{
    rand::thread_rng().gen_range(lo..hi)
}

/// What holds of every particle freshly generated by a reset or a population
/// increase: empty trail, spawn position inside the inset region, small
/// initial speed, mass and color drawn from their fixed ranges.
pub open spec fn fresh_spawned(p: ParticleModel, id: int) -> bool {
    &&& p.id == id
    &&& p.trail.len() == 0
    &&& 50_000 <= p.x < 1_150_000
    &&& 50_000 <= p.y < 550_000
    &&& -1000 <= p.vx < 1000
    &&& -1000 <= p.vy < 1000
    &&& 500 <= p.mass < 2000
    &&& 0 <= p.color < PALETTE_LEN
}

/// What holds of every particle of the initial seeding: like `fresh_spawned`
/// but over the wider launch region and speed range.
pub open spec fn seed_spawned(p: ParticleModel, id: int) -> bool {
    &&& p.id == id
    &&& p.trail.len() == 0
    &&& 50_000 <= p.x < 1_200_000
    &&& 50_000 <= p.y < 600_000
    &&& -2000 <= p.vx < 2000
    &&& -2000 <= p.vy < 2000
    &&& 500 <= p.mass < 2000
    &&& 0 <= p.color < PALETTE_LEN
}

/// Generate one particle for a reset or a population increase.
pub fn make_fresh(id: usize) -> (p: Particle)
    ensures
        fresh_spawned(p@, id as int),
{
    let color: i64 = random_in_range(0, PALETTE_LEN);
    let p = Particle {
        id,
        x: random_in_range(50_000, 1_150_000),
        y: random_in_range(50_000, 550_000),
        vx: random_in_range(-1000, 1000),
        vy: random_in_range(-1000, 1000),
        mass: random_in_range(500, 2000),
        color: color as u8,
        trail: Vec::new(),
    };
    p
}

/// Generate one particle of the initial seeding.
pub fn make_seed(id: usize) -> (p: Particle)
    ensures
        seed_spawned(p@, id as int),
{
    let color: i64 = random_in_range(0, PALETTE_LEN);
    let p = Particle {
        id,
        x: random_in_range(50_000, 1_200_000),
        y: random_in_range(50_000, 600_000),
        vx: random_in_range(-2000, 2000),
        vy: random_in_range(-2000, 2000),
        mass: random_in_range(500, 2000),
        color: color as u8,
        trail: Vec::new(),
    };
    p
}

} // verus!
