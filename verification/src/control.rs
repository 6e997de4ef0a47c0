//! The control channel: applies one partial update to the scene.
//!
//! Every present field overwrites its parameter; an absent field is a no-op.
//! A present `particle_count` resizes the population at once: growth appends
//! freshly generated particles whose ids continue the index sequence,
//! shrinking truncates from the tail. A `reset` of `true` is applied after
//! every other field and regenerates the whole population at the (possibly
//! just updated) target count.

use vstd::prelude::*;

use crate::scene::{SimulationState, ControlUpdate, Particle, make_fresh, fresh_spawned, pviews,
    scene_wf, TRAIL_MAX, PALETTE_LEN, WIDTH, HEIGHT};

verus! {

impl SimulationState {
    /// Apply one inbound partial update. All present fields apply together;
    /// the contract pins every parameter and the exact population that
    /// results: unchanged, truncated to a prefix, grown by fresh particles,
    /// or wholly regenerated when `reset` is `true`.
    #[verifier::rlimit(100)]
    pub fn apply_update(&mut self, u: &ControlUpdate)
        ensures
            final(self)@.gravity == (match u.gravity {
                Some(g) => g as int,
                None => old(self)@.gravity,
            }),
            final(self)@.bounce == (match u.bounce {
                Some(b) => b as int,
                None => old(self)@.bounce,
            }),
            final(self)@.particle_count == (match u.particle_count {
                Some(c) => c as int,
                None => old(self)@.particle_count,
            }),
            final(self)@.mouse_x == (match u.mouse_x {
                Some(v) => v as int,
                None => old(self)@.mouse_x,
            }),
            final(self)@.mouse_y == (match u.mouse_y {
                Some(v) => v as int,
                None => old(self)@.mouse_y,
            }),
            final(self)@.mouse_force == (match u.mouse_force {
                Some(v) => v as int,
                None => old(self)@.mouse_force,
            }),
            final(self)@.paused == (match u.paused {
                Some(v) => v,
                None => old(self)@.paused,
            }),
            scene_wf(old(self)@) ==> scene_wf(final(self)@),
            u.reset == Some(true) ==> final(self)@.particles.len() == final(self)@.particle_count && forall|k: int|
                0 <= k < final(self)@.particles.len() ==> fresh_spawned(
                    #[trigger] final(self)@.particles[k],
                    k,
                ),
            u.reset != Some(true) && u.particle_count is None ==> final(self)@.particles == old(self)@.particles,
            u.reset != Some(true) ==> (u.particle_count matches Some(c) ==> (if c as int
                <= old(self)@.particles.len() {
                final(self)@.particles == old(self)@.particles.take(c as int)
            } else {
                &&& final(self)@.particles.len() == c as int
                &&& final(self)@.particles.take(old(self)@.particles.len() as int)
                    == old(self)@.particles
                &&& forall|k: int|
                    old(self)@.particles.len() <= k < c as int ==> fresh_spawned(
                        #[trigger] final(self)@.particles[k],
                        k,
                    )
            })),
    {
        if let Some(g) = u.gravity {
            self.gravity = g;
        }
        if let Some(b) = u.bounce {
            self.bounce = b;
        }
        if let Some(c) = u.particle_count {
            self.particle_count = c;
            let current: usize = self.particles.len();
            if c > current {
                let mut i: usize = current;
                while i < c
                    invariant
                        current <= i <= c,
                        self.particles@.len() == i as int,
                        self.particles@.take(current as int) == old(self).particles@.take(
                            current as int,
                        ),
                        old(self).particles@.len() == current as int,
                        forall|k: int|
                            current as int <= k < i as int ==> fresh_spawned(
                                (#[trigger] self.particles@[k])@,
                                k,
                            ),
                        self.gravity == (match u.gravity {
                            Some(g) => g,
                            None => old(self).gravity,
                        }),
                        self.bounce == (match u.bounce {
                            Some(b) => b,
                            None => old(self).bounce,
                        }),
                        self.particle_count == c,
                        self.mouse_x == old(self).mouse_x,
                        self.mouse_y == old(self).mouse_y,
                        self.mouse_force == old(self).mouse_force,
                        self.paused == old(self).paused,
                    decreases c - i,
                {
                    let p: Particle = make_fresh(i);
                    self.particles.push(p);
                    proof {
                        assert(self.particles@.take(current as int) =~= old(self).particles@.take(current as int));
                    }
                    i += 1;
                }
                proof {
                    assert(pviews(self.particles@).take(current as int) =~= pviews(
                        old(self).particles@,
                    )) by {
                        assert forall|k: int|
                            0 <= k < current as int implies pviews(self.particles@).take(
                            current as int,
                        )[k] == pviews(old(self).particles@)[k] by {
                            assert(self.particles@.take(current as int)[k]
                                == old(self).particles@.take(current as int)[k]);
                            assert(pviews(self.particles@)[k] == self.particles@[k]@);
                            assert(pviews(old(self).particles@)[k] == old(self).particles@[k]@);
                        }
                    }
                    assert forall|k: int|
                        current as int <= k < c as int implies fresh_spawned(
                        #[trigger] pviews(self.particles@)[k],
                        k,
                    ) by {
                        assert(pviews(self.particles@)[k] == self.particles@[k]@);
                    }
                }
            } else if c < current {
                self.particles.truncate(c);
            }
        }
        if let Some(x) = u.mouse_x {
            self.mouse_x = x;
        }
        if let Some(y) = u.mouse_y {
            self.mouse_y = y;
        }
        if let Some(fv) = u.mouse_force {
            self.mouse_force = fv;
        }
        if let Some(pv) = u.paused {
            self.paused = pv;
        }
        let do_reset: bool = match u.reset {
            Some(r) => r,
            None => false,
        };
        if do_reset {
            self.reset_particles();
        }
        proof {
            if u.reset != Some(true) {
                if u.particle_count is None {
                    assert(self@.particles =~= old(self)@.particles);
                } else {
                    let c = u.particle_count->Some_0;
                    if c as int <= old(self)@.particles.len() {
                        assert(self@.particles =~= old(self)@.particles.take(c as int));
                    }
                }
            }
            if scene_wf(old(self)@) && u.reset != Some(true) && u.particle_count is Some {
                let c = u.particle_count->Some_0;
                let olds = old(self)@.particles;
                assert forall|k: int| 0 <= k < self@.particles.len() implies {
                    let p = #[trigger] self@.particles[k];
                    p.id == k && p.trail.len() <= TRAIL_MAX as nat && 0 <= p.color
                        < PALETTE_LEN as int && 0 <= p.x <= WIDTH as int && 0 <= p.y
                        <= HEIGHT as int
                } by {
                    if c as int <= olds.len() {
                        assert(self@.particles[k] == olds[k]);
                    } else if k < olds.len() {
                        assert(self@.particles.take(olds.len() as int)[k] == self@.particles[k]);
                        assert(self@.particles[k] == olds[k]);
                    } else {
                        assert(fresh_spawned(self@.particles[k], k));
                    }
                }
            }
        }
    }
}

} // verus!
