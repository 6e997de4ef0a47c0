//! The physics engine: advances the scene one discrete tick.
//!
//! Each tick every particle independently records its position on its trail,
//! is kicked toward or away from the pointer, accelerated by gravity,
//! integrated, reflected at the world walls and damped; then every unordered
//! pair closer than the interaction radius exchanges an equal-and-opposite
//! velocity impulse, in index order, over the already-integrated positions.

use vstd::prelude::*;

use crate::num::{sat64, tdiv, sqrt_floor, lemma_sqrt_floor_bounds, sat_add64, sat_sub64,
    sat_to_i64, tdiv_i128, isqrt};
use crate::scene::{WIDTH, HEIGHT, UNIT, TRAIL_MAX, PALETTE_LEN, Particle, ParticleModel,
    SceneModel, SimulationState, pviews, make_seed, make_fresh, seed_spawned, fresh_spawned,
    scene_wf};

verus! {

/// Beyond this pointer displacement (milli-units) the pointer kick rounds to
/// zero at the model's resolution and is not computed.
pub const FAR: i64 = 1_000_000_000_000;

/// Numerator scale of the pointer force law, in milli-units: the world-unit
/// law `dv = dx * force * 10 / distance^3` scaled by 1000^3 / 1000^2.
pub const KICK_NUM: i64 = 10_000_000;

/// Pairwise interaction radius: 20 world units.
pub const PAIR_RADIUS: i64 = 20_000;

/// Numerator scale of the pair force law `f = 0.5 / distance` in milli-units.
pub const PAIR_NUM: i64 = 500_000;

/// Per-tick velocity damping factor, in thousandths.
pub const DAMP_NUM: i64 = 999;

/// Appending to a trail: push the position, then evict the oldest entry if
/// the bound is exceeded.
pub open spec fn push_trail(t: Seq<(int, int)>, x: int, y: int) -> Seq<(int, int)> {
    let t2 = t.push((x, y));
    if t2.len() > TRAIL_MAX as nat {
        t2.drop_first()
    } else {
        t2
    }
}

/// The pointer kick along the `dx` axis for a particle displaced `(dx, dy)`
/// from the pointer, at pointer force `f`. Mirrors
/// `dv = (dx / d) * (f / d^2 * 1000) * 0.01` with `d` floored at one world
/// unit; a displacement beyond `FAR` yields zero at this resolution.
pub open spec fn pointer_kick(dx: int, dy: int, f: int) -> int {
    if dx > FAR as int || dx < -(FAR as int) || dy > FAR as int || dy < -(FAR as int) {
        0
    } else {
        let d2 = dx * dx + dy * dy;
        let s = sqrt_floor(d2);
        let d = if s < UNIT as int {
            UNIT as int
        } else {
            s
        };
        sat64(tdiv(dx * f * (KICK_NUM as int), d * d * d))
    }
}

/// Reflection at a wall: `v * -bounce`, with `bounce` in thousandths.
pub open spec fn bounce_v(v: int, b: int) -> int {
    sat64(tdiv(-(v * b), 1000))
}

/// Per-tick damping: `v * 0.999`.
pub open spec fn damp_v(v: int) -> int {
    sat64(tdiv(v * (DAMP_NUM as int), 1000))
}

/// Clamp a coordinate into `[0, hi]`.
pub open spec fn clamp_coord(x: int, hi: int) -> int {
    if x < 0 {
        0
    } else if x > hi {
        hi
    } else {
        x
    }
}

/// The independent per-particle part of one tick: trail, pointer kick,
/// gravity, Euler integration, wall reflection with clamping, damping.
pub open spec fn step_one(p: ParticleModel, mx: int, my: int, f: int, g: int, b: int)
    -> ParticleModel {
    let trail = push_trail(p.trail, p.x, p.y);
    let vx1 = sat64(p.vx + pointer_kick(mx - p.x, my - p.y, f));
    let vy1 = sat64(p.vy + pointer_kick(my - p.y, mx - p.x, f));
    let vy2 = sat64(vy1 + g);
    let x1 = sat64(p.x + vx1);
    let y1 = sat64(p.y + vy2);
    let xc = x1 <= 0 || x1 >= WIDTH as int;
    let yc = y1 <= 0 || y1 >= HEIGHT as int;
    let vx2 = if xc {
        bounce_v(vx1, b)
    } else {
        vx1
    };
    let x2 = if xc {
        clamp_coord(x1, WIDTH as int)
    } else {
        x1
    };
    let vy3 = if yc {
        bounce_v(vy2, b)
    } else {
        vy2
    };
    let y2 = if yc {
        clamp_coord(y1, HEIGHT as int)
    } else {
        y1
    };
    ParticleModel { x: x2, y: y2, vx: damp_v(vx2), vy: damp_v(vy3), trail, ..p }
}

/// The per-particle pass over the whole population.
pub open spec fn stepped(s: Seq<ParticleModel>, mx: int, my: int, f: int, g: int, b: int)
    -> Seq<ParticleModel> {
    s.map_values(|p: ParticleModel| step_one(p, mx, my, f, g, b))
}

/// The pair impulse along the `dx` axis for two particles separated by
/// `(dx, dy)`: `(dx / d) * (0.5 / d)` when `0 < d < 20` world units, zero at
/// coincidence or beyond the radius.
pub open spec fn pair_fx(dx: int, dy: int) -> int {
    let d2 = dx * dx + dy * dy;
    if 0 < d2 && d2 < (PAIR_RADIUS as int) * (PAIR_RADIUS as int) {
        let d = sqrt_floor(d2);
        sat64(tdiv(dx * (PAIR_NUM as int), d * d))
    } else {
        0
    }
}

/// One pairwise interaction: particle `i` loses the impulse, particle `j`
/// gains it; positions and all other fields are untouched.
pub open spec fn kick_pair(s: Seq<ParticleModel>, i: int, j: int) -> Seq<ParticleModel>
    recommends
        0 <= i < j < s.len(),
{
    let fx = pair_fx(s[j].x - s[i].x, s[j].y - s[i].y);
    let fy = pair_fx(s[j].y - s[i].y, s[j].x - s[i].x);
    let pi = s[i];
    let pj = s[j];
    s.update(i, ParticleModel { vx: sat64(pi.vx - fx), vy: sat64(pi.vy - fy), ..pi }).update(
        j,
        ParticleModel { vx: sat64(pj.vx + fx), vy: sat64(pj.vy + fy), ..pj },
    )
}

/// Pair interactions of particle `i` with partners `j, j+1, ..., n-1`, in
/// order.
pub open spec fn inner_pass(s: Seq<ParticleModel>, n: int, i: int, j: int) -> Seq<ParticleModel>
    decreases n - j,
{
    if 0 <= i && i < j && j < n {
        inner_pass(kick_pair(s, i, j), n, i, j + 1)
    } else {
        s
    }
}

/// Pair interactions of all unordered pairs `(i, j)`, `i < j < n`, in
/// lexicographic order.
pub open spec fn outer_pass(s: Seq<ParticleModel>, n: int, i: int) -> Seq<ParticleModel>
    decreases n - i,
{
    if 0 <= i && i < n {
        outer_pass(inner_pass(s, n, i, i + 1), n, i + 1)
    } else {
        s
    }
}

/// The full pairwise pass.
pub open spec fn pair_all(s: Seq<ParticleModel>) -> Seq<ParticleModel> {
    outer_pass(s, s.len() as int, 0)
}

/// One full tick of the scene: a no-op when paused, otherwise the
/// per-particle pass followed by the pairwise pass; parameters are untouched.
pub open spec fn scene_step(sc: SceneModel) -> SceneModel {
    if sc.paused {
        sc
    } else {
        SceneModel {
            particles: pair_all(
                stepped(sc.particles, sc.mouse_x, sc.mouse_y, sc.mouse_force, sc.gravity,
                    sc.bounce),
            ),
            ..sc
        }
    }
}

/// After the per-particle pass a particle sits inside the world, whatever
/// state it started from.
pub proof fn lemma_step_one_in_world(p: ParticleModel, mx: int, my: int, f: int, g: int, b: int)
    ensures
        0 <= step_one(p, mx, my, f, g, b).x <= WIDTH as int,
        0 <= step_one(p, mx, my, f, g, b).y <= HEIGHT as int,
{
}

/// `v * m / 1000`, truncating, saturated at the `i64` range.
fn scale_thousandths(v: i64, m: i64) -> (r: i64)
    ensures
        r as int == sat64(tdiv(v as int * m as int, 1000)),
{
    proof {
        assert((-0x40000000000000000000000000000000 <= (v as int) * (m as int)
            <= 0x40000000000000000000000000000000) && (v as int) * (m as int) != i128::MIN as int)
            by (nonlinear_arith)
            requires
                i64::MIN <= v <= i64::MAX,
                i64::MIN <= m <= i64::MAX,
        {
        }
    }
    let p: i128 = (v as i128) * (m as i128);
    sat_to_i64(tdiv_i128(p, 1000))
}

/// `v * -b / 1000`, truncating, saturated: the wall reflection.
fn bounce_scale(v: i64, b: i64) -> (r: i64)
    ensures
        r as int == bounce_v(v as int, b as int),
{
    proof {
        assert((-0x40000000000000000000000000000000 <= (v as int) * (b as int)
            <= 0x40000000000000000000000000000000))
            by (nonlinear_arith)
            requires
                i64::MIN <= v <= i64::MAX,
                i64::MIN <= b <= i64::MAX,
        {
        }
    }
    let p: i128 = -((v as i128) * (b as i128));
    sat_to_i64(tdiv_i128(p, 1000))
}

/// Both components of the pointer kick on a particle at `(x, y)`.
fn pointer_kick_exec(x: i64, y: i64, mx: i64, my: i64, f: i64) -> (r: (i64, i64))
    ensures
        r.0 as int == pointer_kick(mx as int - x as int, my as int - y as int, f as int),
        r.1 as int == pointer_kick(my as int - y as int, mx as int - x as int, f as int),
{
    let dx: i128 = mx as i128 - x as i128;
    let dy: i128 = my as i128 - y as i128;
    let far: i128 = FAR as i128;
    if dx > far || dx < -far || dy > far || dy < -far {
        (0i64, 0i64)
    } else {
        proof {
            assert(0 <= dx * dx <= 1_000_000_000_000_000_000_000_000 && 0 <= dy * dy
                <= 1_000_000_000_000_000_000_000_000) by (nonlinear_arith)
                requires
                    -(FAR as int) <= dx <= FAR as int,
                    -(FAR as int) <= dy <= FAR as int,
            {
            }
        }
        let d2: i128 = dx * dx + dy * dy;
        let s: u128 = isqrt(d2 as u128);
        proof {
            lemma_sqrt_floor_bounds(d2 as int);
            assert(s as int <= 1_500_000_000_000) by (nonlinear_arith)
                requires
                    s as int >= 0,
                    (s as int) * (s as int) <= 2_000_000_000_000_000_000_000_000,
            {
            }
        }
        let d: i128 = if s < 1000 {
            1000
        } else {
            s as i128
        };
        proof {
            assert(1000 <= d * d && d * d <= 2_250_000_000_000_000_000_000_000)
                by (nonlinear_arith)
                requires
                    1000 <= d <= 1_500_000_000_000,
            {
            }
            assert(1000 <= d * d * d && d * d * d
                <= 3_375_000_000_000_000_000_000_000_000_000_000_000) by (nonlinear_arith)
                requires
                    1000 <= d <= 1_500_000_000_000,
                    1000 <= d * d <= 2_250_000_000_000_000_000_000_000,
            {
            }
            assert(-10_000_000_000_000_000_000_000_000_000_000 <= dx * (f as int) && dx * (
            f as int) <= 10_000_000_000_000_000_000_000_000_000_000) by (nonlinear_arith)
                requires
                    -(FAR as int) <= dx <= FAR as int,
                    i64::MIN <= f <= i64::MAX,
            {
            }
            assert(-10_000_000_000_000_000_000_000_000_000_000 <= dy * (f as int) && dy * (
            f as int) <= 10_000_000_000_000_000_000_000_000_000_000) by (nonlinear_arith)
                requires
                    -(FAR as int) <= dy <= FAR as int,
                    i64::MIN <= f <= i64::MAX,
            {
            }
        }
        proof {
            assert(-100_000_000_000_000_000_000_000_000_000_000_000_000 <= dx * (f as int) * (
            KICK_NUM as int) <= 100_000_000_000_000_000_000_000_000_000_000_000_000
                && -100_000_000_000_000_000_000_000_000_000_000_000_000 <= dy * (f as int) * (
            KICK_NUM as int) <= 100_000_000_000_000_000_000_000_000_000_000_000_000)
                by (nonlinear_arith)
                requires
                    -10_000_000_000_000_000_000_000_000_000_000 <= dx * (f as int)
                        <= 10_000_000_000_000_000_000_000_000_000_000,
                    -10_000_000_000_000_000_000_000_000_000_000 <= dy * (f as int)
                        <= 10_000_000_000_000_000_000_000_000_000_000,
                    KICK_NUM == 10_000_000,
            {
            }
        }
        let den: i128 = d * d * d;
        let numx: i128 = dx * (f as i128) * (KICK_NUM as i128);
        let numy: i128 = dy * (f as i128) * (KICK_NUM as i128);
        let kx: i64 = sat_to_i64(tdiv_i128(numx, den));
        let ky: i64 = sat_to_i64(tdiv_i128(numy, den));
        (kx, ky)
    }
}

/// Both components of the pair impulse between in-world positions.
fn pair_kick_exec(xi: i64, yi: i64, xj: i64, yj: i64) -> (r: (i64, i64))
    requires
        0 <= xi <= WIDTH,
        0 <= yi <= HEIGHT,
        0 <= xj <= WIDTH,
        0 <= yj <= HEIGHT,
    ensures
        r.0 as int == pair_fx(xj as int - xi as int, yj as int - yi as int),
        r.1 as int == pair_fx(yj as int - yi as int, xj as int - xi as int),
{
    let dx: i128 = xj as i128 - xi as i128;
    let dy: i128 = yj as i128 - yi as i128;
    proof {
        assert(0 <= dx * dx <= 1_440_000_000_000 && 0 <= dy * dy <= 1_440_000_000_000)
            by (nonlinear_arith)
            requires
                -1_200_000 <= dx <= 1_200_000,
                -1_200_000 <= dy <= 1_200_000,
        {
        }
    }
    let d2: i128 = dx * dx + dy * dy;
    if 0 < d2 && d2 < 400_000_000 {
        let s: u128 = isqrt(d2 as u128);
        proof {
            lemma_sqrt_floor_bounds(d2 as int);
            assert(1 <= s as int <= 20_000) by (nonlinear_arith)
                requires
                    s as int >= 0,
                    (s as int) * (s as int) <= d2 as int,
                    (d2 as int) < ((s as int) + 1) * ((s as int) + 1),
                    0 < (d2 as int) < 400_000_000,
            {
            }
            assert((PAIR_RADIUS as int) * (PAIR_RADIUS as int) == 400_000_000);
        }
        let si: i128 = s as i128;
        proof {
            assert(1 <= si * si && si * si <= 400_000_000) by (nonlinear_arith)
                requires
                    1 <= si <= 20_000,
            {
            }
        }
        let den: i128 = si * si;
        proof {
            assert(-600_000_000_000 <= dx * (PAIR_NUM as int) <= 600_000_000_000
                && -600_000_000_000 <= dy * (PAIR_NUM as int) <= 600_000_000_000)
                by (nonlinear_arith)
                requires
                    -1_200_000 <= dx <= 1_200_000,
                    -1_200_000 <= dy <= 1_200_000,
                    PAIR_NUM == 500_000,
            {
            }
        }
        let fx: i64 = sat_to_i64(tdiv_i128(dx * (PAIR_NUM as i128), den));
        let fy: i64 = sat_to_i64(tdiv_i128(dy * (PAIR_NUM as i128), den));
        (fx, fy)
    } else {
        proof {
            assert((PAIR_RADIUS as int) * (PAIR_RADIUS as int) == 400_000_000);
        }
        (0i64, 0i64)
    }
}

/// The per-particle part of the tick for one particle.
fn stepped_particle(p: &Particle, mx: i64, my: i64, f: i64, g: i64, b: i64) -> (np: Particle)
    ensures
        np@ == step_one(p@, mx as int, my as int, f as int, g as int, b as int),
{
    let tlen: usize = p.trail.len();
    let start: usize = if tlen < TRAIL_MAX {
        0
    } else {
        1
    };
    let mut trail: Vec<(i64, i64)> = Vec::new();
    let mut k: usize = start;
    while k < tlen
        invariant
            start <= k <= tlen,
            tlen == p.trail.len(),
            trail@ == p.trail@.subrange(start as int, k as int),
        decreases tlen - k,
    {
        let e: (i64, i64) = p.trail[k];
        trail.push(e);
        proof {
            assert(trail@ =~= p.trail@.subrange(start as int, k as int + 1));
        }
        k += 1;
    }
    trail.push((p.x, p.y));
    let kick: (i64, i64) = pointer_kick_exec(p.x, p.y, mx, my, f);
    let vx1: i64 = sat_add64(p.vx, kick.0);
    let vy1: i64 = sat_add64(p.vy, kick.1);
    let vy2: i64 = sat_add64(vy1, g);
    let x1: i64 = sat_add64(p.x, vx1);
    let y1: i64 = sat_add64(p.y, vy2);
    let hit_x: bool = x1 <= 0 || x1 >= WIDTH;
    let hit_y: bool = y1 <= 0 || y1 >= HEIGHT;
    let vx2: i64 = if hit_x {
        bounce_scale(vx1, b)
    } else {
        vx1
    };
    let x2: i64 = if !hit_x {
        x1
    } else if x1 < 0 {
        0
    } else if x1 > WIDTH {
        WIDTH
    } else {
        x1
    };
    let vy3: i64 = if hit_y {
        bounce_scale(vy2, b)
    } else {
        vy2
    };
    let y2: i64 = if !hit_y {
        y1
    } else if y1 < 0 {
        0
    } else if y1 > HEIGHT {
        HEIGHT
    } else {
        y1
    };
    let vxd: i64 = scale_thousandths(vx2, DAMP_NUM);
    let vyd: i64 = scale_thousandths(vy3, DAMP_NUM);
    let np = Particle {
        id: p.id,
        x: x2,
        y: y2,
        vx: vxd,
        vy: vyd,
        mass: p.mass,
        color: p.color,
        trail,
    };
    proof {
        assert(np@.trail =~= push_trail(p@.trail, p@.x, p@.y));
        assert(np@ =~= step_one(p@, mx as int, my as int, f as int, g as int, b as int));
    }
    np
}

/// One pair interaction changes only the two velocities.
pub proof fn lemma_kick_pair_frame(s: Seq<ParticleModel>, i: int, j: int)
    requires
        0 <= i < j < s.len(),
    ensures
        kick_pair(s, i, j).len() == s.len(),
        forall|k: int|
            0 <= k < s.len() ==> {
                let q = #[trigger] kick_pair(s, i, j)[k];
                q.x == s[k].x && q.y == s[k].y && q.id == s[k].id && q.mass == s[k].mass
                    && q.color == s[k].color && q.trail == s[k].trail
            },
{
}

/// The inner pass changes only velocities and keeps the length.
pub proof fn lemma_inner_pass_frame(s: Seq<ParticleModel>, n: int, i: int, j: int)
    requires
        n == s.len(),
    ensures
        inner_pass(s, n, i, j).len() == s.len(),
        forall|k: int|
            0 <= k < s.len() ==> {
                let q = #[trigger] inner_pass(s, n, i, j)[k];
                q.x == s[k].x && q.y == s[k].y && q.id == s[k].id && q.mass == s[k].mass
                    && q.color == s[k].color && q.trail == s[k].trail
            },
    decreases n - j,
{
    if 0 <= i && i < j && j < n {
        lemma_kick_pair_frame(s, i, j);
        lemma_inner_pass_frame(kick_pair(s, i, j), n, i, j + 1);
    }
}

/// The whole pairwise pass changes only velocities and keeps the length.
pub proof fn lemma_outer_pass_frame(s: Seq<ParticleModel>, n: int, i: int)
    requires
        n == s.len(),
    ensures
        outer_pass(s, n, i).len() == s.len(),
        forall|k: int|
            0 <= k < s.len() ==> {
                let q = #[trigger] outer_pass(s, n, i)[k];
                q.x == s[k].x && q.y == s[k].y && q.id == s[k].id && q.mass == s[k].mass
                    && q.color == s[k].color && q.trail == s[k].trail
            },
    decreases n - i,
{
    if 0 <= i && i < n {
        lemma_inner_pass_frame(s, n, i, i + 1);
        lemma_outer_pass_frame(inner_pass(s, n, i, i + 1), n, i + 1);
    }
}

/// Law: pausing halts state evolution entirely — a tick on a paused scene
/// leaves every particle's position, velocity and trail, and every
/// parameter, exactly as it was.
pub proof fn lemma_paused_step_is_noop(sc: SceneModel)
    requires
        sc.paused,
    ensures
        scene_step(sc) == sc,
{
}

/// Law: after a tick every particle lies inside the world,
/// `x` in `[0, WIDTH]` and `y` in `[0, HEIGHT]`, even where the integration
/// overshot the walls.
pub proof fn lemma_step_positions_in_world(sc: SceneModel)
    requires
        !sc.paused,
    ensures
        scene_step(sc).particles.len() == sc.particles.len(),
        forall|k: int|
            0 <= k < sc.particles.len() ==> 0 <= (#[trigger] scene_step(sc).particles[k]).x
                <= WIDTH as int && 0 <= scene_step(sc).particles[k].y <= HEIGHT as int,
{
    let mid = stepped(sc.particles, sc.mouse_x, sc.mouse_y, sc.mouse_force, sc.gravity, sc.bounce);
    let n = mid.len() as int;
    lemma_outer_pass_frame(mid, n, 0);
    assert forall|k: int|
        0 <= k < sc.particles.len() implies 0 <= (#[trigger] scene_step(sc).particles[k]).x
        <= WIDTH as int && 0 <= scene_step(sc).particles[k].y <= HEIGHT as int by {
        lemma_step_one_in_world(sc.particles[k], sc.mouse_x, sc.mouse_y, sc.mouse_force, sc.gravity,
            sc.bounce);
        assert(mid[k] == step_one(sc.particles[k], sc.mouse_x, sc.mouse_y, sc.mouse_force,
            sc.gravity, sc.bounce));
    }
}

/// Law: a tick extends each trail chronologically. The new trail is the old
/// one with the pre-step position appended (evicting the oldest entry at the
/// bound), so the most recent position comes last, earlier entries keep
/// their order, and a trail within the bound stays within the bound.
pub proof fn lemma_step_trail_chronological(sc: SceneModel, k: int)
    requires
        !sc.paused,
        0 <= k < sc.particles.len(),
    ensures
        ({
            let p = sc.particles[k];
            let t2 = scene_step(sc).particles[k].trail;
            let shift: int = if p.trail.len() >= TRAIL_MAX as nat {
                1
            } else {
                0
            };
            &&& t2 == push_trail(p.trail, p.x, p.y)
            &&& p.trail.len() <= TRAIL_MAX as nat ==> t2.len() <= TRAIL_MAX as nat
            &&& t2.len() >= 1
            &&& t2[t2.len() - 1] == (p.x, p.y)
            &&& forall|m: int| 0 <= m < t2.len() - 1 ==> t2[m] == p.trail[m + shift]
        }),
{
    let mid = stepped(sc.particles, sc.mouse_x, sc.mouse_y, sc.mouse_force, sc.gravity, sc.bounce);
    let n = mid.len() as int;
    lemma_outer_pass_frame(mid, n, 0);
    assert(mid[k] == step_one(sc.particles[k], sc.mouse_x, sc.mouse_y, sc.mouse_force, sc.gravity,
        sc.bounce));
    assert(scene_step(sc).particles[k].trail == mid[k].trail);
}

/// Law: a tick preserves scene well-formedness — ids stay the indexes,
/// trails stay bounded, colors stay in the palette, positions stay in the
/// world, and the population still matches the target count.
pub proof fn lemma_step_preserves_wf(sc: SceneModel)
    requires
        scene_wf(sc),
    ensures
        scene_wf(scene_step(sc)),
{
    if !sc.paused {
        let mid = stepped(sc.particles, sc.mouse_x, sc.mouse_y, sc.mouse_force, sc.gravity,
            sc.bounce);
        let n = mid.len() as int;
        lemma_outer_pass_frame(mid, n, 0);
        lemma_step_positions_in_world(sc);
        assert forall|k: int| 0 <= k < scene_step(sc).particles.len() implies {
            let q = #[trigger] scene_step(sc).particles[k];
            q.id == k && q.trail.len() <= TRAIL_MAX as nat && 0 <= q.color < PALETTE_LEN as int
        } by {
            assert(mid[k] == step_one(sc.particles[k], sc.mouse_x, sc.mouse_y, sc.mouse_force,
                sc.gravity, sc.bounce));
            lemma_step_trail_chronological(sc, k);
        }
    }
}

impl SimulationState {
    /// The scene at process start: 500 seeded particles and the default
    /// parameters (gravity 0.1, bounce 0.8, pointer at the centre with
    /// force 5, running).
    pub fn new() -> (s: SimulationState)
        ensures
            s@.gravity == 100,
            s@.bounce == 800,
            s@.particle_count == 500,
            s@.mouse_x == 600_000,
            s@.mouse_y == 300_000,
            s@.mouse_force == 5000,
            s@.paused == false,
            s@.particles.len() == 500,
            forall|k: int| 0 <= k < 500 ==> seed_spawned(#[trigger] s@.particles[k], k),
            scene_wf(s@),
    {
        let mut particles: Vec<Particle> = Vec::new();
        let mut i: usize = 0;
        while i < 500
            invariant
                i <= 500,
                particles@.len() == i as int,
                forall|k: int|
                    0 <= k < i as int ==> seed_spawned((#[trigger] particles@[k])@, k),
            decreases 500 - i,
        {
            let p: Particle = make_seed(i);
            particles.push(p);
            i += 1;
        }
        let s = SimulationState {
            particles,
            gravity: 100,
            bounce: 800,
            particle_count: 500,
            mouse_x: 600_000,
            mouse_y: 300_000,
            mouse_force: 5000,
            paused: false,
        };
        proof {
            assert forall|k: int| 0 <= k < 500 implies seed_spawned(
                #[trigger] s@.particles[k],
                k,
            ) by {
                assert(s@.particles[k] == s.particles@[k]@);
            }
        }
        s
    }

    /// Advance the scene by one tick. The resulting scene is exactly
    /// `scene_step` of the old one: a no-op when paused, otherwise the
    /// per-particle pass followed by the pairwise pass.
    pub fn update_physics(&mut self)
        ensures
            final(self)@ == scene_step(old(self)@),
            scene_wf(old(self)@) ==> scene_wf(final(self)@),
    {
        proof {
            if scene_wf(self@) {
                lemma_step_preserves_wf(self@);
            }
        }
        if self.paused {
            return ;
        }
        let mx: i64 = self.mouse_x;
        let my: i64 = self.mouse_y;
        let mf: i64 = self.mouse_force;
        let g: i64 = self.gravity;
        let b: i64 = self.bounce;
        let n: usize = self.particles.len();
        let ghost s0: Seq<ParticleModel> = pviews(self.particles@);
        let mut out: Vec<Particle> = Vec::new();
        let mut i: usize = 0;
        while i < n
            invariant
                i <= n,
                *self == *old(self),
                !self.paused,
                n == self.particles@.len(),
                s0 == pviews(self.particles@),
                mx == self.mouse_x,
                my == self.mouse_y,
                mf == self.mouse_force,
                g == self.gravity,
                b == self.bounce,
                out@.len() == i as int,
                forall|k: int|
                    0 <= k < i as int ==> (#[trigger] out@[k])@ == step_one(
                        s0[k],
                        mx as int,
                        my as int,
                        mf as int,
                        g as int,
                        b as int,
                    ),
            decreases n - i,
        {
            let np: Particle = stepped_particle(&self.particles[i], mx, my, mf, g, b);
            proof {
                assert(s0[i as int] == self.particles@[i as int]@);
            }
            out.push(np);
            i += 1;
        }
        self.particles = out;
        let ghost smid: Seq<ParticleModel> = pviews(self.particles@);
        proof {
            assert(smid =~= stepped(s0, mx as int, my as int, mf as int, g as int, b as int)) by {
                assert forall|k: int| 0 <= k < n as int implies smid[k] == stepped(
                    s0,
                    mx as int,
                    my as int,
                    mf as int,
                    g as int,
                    b as int,
                )[k] by {
                    assert(smid[k] == self.particles@[k]@);
                }
            }
            assert forall|k: int|
                0 <= k < n as int implies 0 <= (#[trigger] smid[k]).x <= WIDTH as int && 0
                <= smid[k].y <= HEIGHT as int by {
                lemma_step_one_in_world(s0[k], mx as int, my as int, mf as int, g as int, b as int);
            }
        }
        let mut a: usize = 0;
        while a < n
            invariant
                a <= n,
                n == self.particles@.len(),
                self.gravity == old(self).gravity,
                self.bounce == old(self).bounce,
                self.particle_count == old(self).particle_count,
                self.mouse_x == old(self).mouse_x,
                self.mouse_y == old(self).mouse_y,
                self.mouse_force == old(self).mouse_force,
                self.paused == old(self).paused,
                !self.paused,
                outer_pass(smid, n as int, 0) == outer_pass(
                    pviews(self.particles@),
                    n as int,
                    a as int,
                ),
                forall|k: int|
                    0 <= k < n as int ==> 0 <= (#[trigger] self.particles@[k]).x
                        <= WIDTH && 0 <= self.particles@[k].y <= HEIGHT,
            decreases n - a,
        {
            proof {
                assert(outer_pass(pviews(self.particles@), n as int, a as int) == outer_pass(
                    inner_pass(pviews(self.particles@), n as int, a as int, a as int + 1),
                    n as int,
                    a as int + 1,
                ));
            }
            let mut jj: usize = a + 1;
            while jj < n
                invariant
                    a < n,
                    a as int + 1 <= jj as int <= n as int,
                    n == self.particles@.len(),
                    self.gravity == old(self).gravity,
                    self.bounce == old(self).bounce,
                    self.particle_count == old(self).particle_count,
                    self.mouse_x == old(self).mouse_x,
                    self.mouse_y == old(self).mouse_y,
                    self.mouse_force == old(self).mouse_force,
                    self.paused == old(self).paused,
                    !self.paused,
                    outer_pass(smid, n as int, 0) == outer_pass(
                        inner_pass(pviews(self.particles@), n as int, a as int, jj as int),
                        n as int,
                        a as int + 1,
                    ),
                    forall|k: int|
                        0 <= k < n as int ==> 0 <= (#[trigger] self.particles@[k]).x
                            <= WIDTH && 0 <= self.particles@[k].y <= HEIGHT,
                decreases n - jj,
            {
                let ghost prev: Seq<ParticleModel> = pviews(self.particles@);
                let xi: i64 = self.particles[a].x;
                let yi: i64 = self.particles[a].y;
                let xj: i64 = self.particles[jj].x;
                let yj: i64 = self.particles[jj].y;
                let kicks: (i64, i64) = pair_kick_exec(xi, yi, xj, yj);
                let vxi: i64 = self.particles[a].vx;
                let vyi: i64 = self.particles[a].vy;
                let nvxi: i64 = sat_sub64(vxi, kicks.0);
                let nvyi: i64 = sat_sub64(vyi, kicks.1);
                {
                    let pi = &mut self.particles[a];
                    pi.vx = nvxi;
                    pi.vy = nvyi;
                }
                let vxj: i64 = self.particles[jj].vx;
                let vyj: i64 = self.particles[jj].vy;
                let nvxj: i64 = sat_add64(vxj, kicks.0);
                let nvyj: i64 = sat_add64(vyj, kicks.1);
                {
                    let pj = &mut self.particles[jj];
                    pj.vx = nvxj;
                    pj.vy = nvyj;
                }
                proof {
                    assert(pviews(self.particles@) =~= kick_pair(prev, a as int, jj as int)) by {
                        assert forall|k: int|
                            0 <= k < n as int implies pviews(self.particles@)[k] == kick_pair(
                            prev,
                            a as int,
                            jj as int,
                        )[k] by {
                            assert(pviews(self.particles@)[k] == self.particles@[k]@);
                            if k == a as int {
                                assert(pviews(self.particles@)[k] =~= kick_pair(
                                    prev,
                                    a as int,
                                    jj as int,
                                )[k]);
                            } else if k == jj as int {
                                assert(pviews(self.particles@)[k] =~= kick_pair(
                                    prev,
                                    a as int,
                                    jj as int,
                                )[k]);
                            }
                        }
                    }
                    assert(inner_pass(prev, n as int, a as int, jj as int) == inner_pass(
                        pviews(self.particles@),
                        n as int,
                        a as int,
                        jj as int + 1,
                    ));
                }
                jj += 1;
            }
            proof {
                assert(inner_pass(pviews(self.particles@), n as int, a as int, n as int) == pviews(
                    self.particles@,
                ));
            }
            a += 1;
        }
        proof {
            assert(outer_pass(pviews(self.particles@), n as int, n as int) == pviews(
                self.particles@,
            ));
            assert(pviews(self.particles@) == outer_pass(
                stepped(s0, mx as int, my as int, mf as int, g as int, b as int),
                n as int,
                0,
            ));
            assert(self@ =~= scene_step(old(self)@));
        }
    }

    /// Discard the population and regenerate `particle_count` fresh
    /// particles inside the inset spawn region; parameters are untouched.
    pub fn reset_particles(&mut self)
        ensures
            final(self)@.gravity == old(self)@.gravity,
            final(self)@.bounce == old(self)@.bounce,
            final(self)@.particle_count == old(self)@.particle_count,
            final(self)@.mouse_x == old(self)@.mouse_x,
            final(self)@.mouse_y == old(self)@.mouse_y,
            final(self)@.mouse_force == old(self)@.mouse_force,
            final(self)@.paused == old(self)@.paused,
            final(self)@.particles.len() == old(self)@.particle_count,
            forall|k: int|
                0 <= k < final(self)@.particles.len() ==> fresh_spawned(
                    #[trigger] final(self)@.particles[k],
                    k,
                ),
            scene_wf(final(self)@),
    {
        let count: usize = self.particle_count;
        self.particles.clear();
        let mut i: usize = 0;
        while i < count
            invariant
                i <= count,
                count == self.particle_count,
                self.gravity == old(self).gravity,
                self.bounce == old(self).bounce,
                self.particle_count == old(self).particle_count,
                self.mouse_x == old(self).mouse_x,
                self.mouse_y == old(self).mouse_y,
                self.mouse_force == old(self).mouse_force,
                self.paused == old(self).paused,
                self.particles@.len() == i as int,
                forall|k: int|
                    0 <= k < i as int ==> fresh_spawned((#[trigger] self.particles@[k])@, k),
            decreases count - i,
        {
            let p: Particle = make_fresh(i);
            self.particles.push(p);
            i += 1;
        }
        proof {
            assert forall|k: int| 0 <= k < self@.particles.len() implies fresh_spawned(
                #[trigger] self@.particles[k],
                k,
            ) by {
                assert(self@.particles[k] == self.particles@[k]@);
            }
        }
    }
}

} // verus!
