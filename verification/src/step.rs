//! The step driver: gravity integration and the fixed-iteration
//! constraint solver over every unordered pair of bodies.

use vstd::prelude::*;
use crate::num::{spec_tdiv, spec_clamp, tdiv128, clamp128, lemma_tdiv_bounded_by_multiple};
use crate::vec2::{Vec2, V2, v2_neg, lemma_prod_bound};
use crate::body::{Body, MAX_POS, MAX_VEL};
use crate::collide::{
    check_broad_collision, check_precise_collision, Collision,
    spec_collides, spec_best_axis, spec_overlap_amount, spec_oriented_axis,
    spec_center_distance, spec_broad_radius,
};
use crate::resolve::{
    resolve_collision, resolve_velocities,
    spec_translated, spec_kicked, spec_shift, spec_dv_a, spec_dv_b,
};

verus! {

/// Longest time slice one step accepts: one minute.
pub const MAX_DT: i64 = 60_000;

/// Gravity components are kept within a thousand units per second squared.
pub const MAX_GRAVITY: i64 = 1_000_000;

/// Most solver sweeps one step will run.
pub const MAX_ITERATIONS: usize = 64;

/// Ambient simulation state, passed explicitly to the step driver.
#[derive(Clone, Copy, PartialEq, Eq, Structural, Debug)]
pub struct StepConfig {
    /// Constant acceleration applied to every unanchored body.
    pub gravity: Vec2,
    /// How many full pair sweeps the solver runs per step, unconditionally.
    pub solver_iterations: usize,
}

impl StepConfig {
    /// The configuration fits the ranges the driver's arithmetic is
    /// proved against.
    pub open spec fn well_formed(self) -> bool {
        &&& -MAX_GRAVITY <= self.gravity.x <= MAX_GRAVITY
        &&& -MAX_GRAVITY <= self.gravity.y <= MAX_GRAVITY
        &&& self.solver_iterations <= MAX_ITERATIONS
    }

    /// The reference configuration: gravity of 120 units per second
    /// squared pointing down the screen, five solver sweeps.
    pub fn new() -> (r: StepConfig)
        ensures
            r == (StepConfig { gravity: Vec2 { x: 0, y: 120_000 }, solver_iterations: 5 }),
            r.well_formed(),
    {
        StepConfig { gravity: Vec2 { x: 0, y: 120_000 }, solver_iterations: 5 }
    }
}

/// One body after semi-implicit Euler integration: gravity scaled by the
/// time slice is added to the velocity, then the updated velocity scaled
/// by the time slice is added to the position, both clamped into the
/// well-formed ranges.
pub open spec fn spec_integrated(b: Body, gravity: V2, dt: int) -> Body {
    let vx = spec_clamp(
        b.velocity@.x + spec_tdiv(gravity.x * dt, 1000),
        MAX_VEL as int,
    ) as i64;
    let vy = spec_clamp(
        b.velocity@.y + spec_tdiv(gravity.y * dt, 1000),
        MAX_VEL as int,
    ) as i64;
    Body {
        velocity: Vec2 { x: vx, y: vy },
        position: Vec2 {
            x: spec_clamp(
                b.position@.x + spec_tdiv((vx as int) * dt, 1000),
                MAX_POS as int,
            ) as i64,
            y: spec_clamp(
                b.position@.y + spec_tdiv((vy as int) * dt, 1000),
                MAX_POS as int,
            ) as i64,
        },
        ..b
    }
}

/// Integrate one body for the time slice `dt`: anchored bodies and an
/// inactive simulation are left exactly as they were; the velocity is
/// updated before the position reads it.
pub fn integrate_body(b: &mut Body, gravity: Vec2, dt: i64, active: bool)
    requires
        old(b).well_formed(),
        0 <= dt <= MAX_DT,
        -MAX_GRAVITY <= gravity.x <= MAX_GRAVITY,
        -MAX_GRAVITY <= gravity.y <= MAX_GRAVITY,
    ensures
        !(active && !old(b).anchored) ==> *final(b) == *old(b),
        (active && !old(b).anchored) ==> *final(b) == spec_integrated(
            *old(b), gravity@, dt as int,
        ),
        final(b).well_formed(),
{
    if !b.anchored && active {
        proof {
            lemma_prod_bound(gravity.x as int, dt as int, MAX_GRAVITY as int, MAX_DT as int);
            lemma_prod_bound(gravity.y as int, dt as int, MAX_GRAVITY as int, MAX_DT as int);
            lemma_tdiv_bounded_by_multiple((gravity.x as int) * (dt as int), 1000, 60_000_000_000);
            lemma_tdiv_bounded_by_multiple((gravity.y as int) * (dt as int), 1000, 60_000_000_000);
        }
        let gx = tdiv128((gravity.x as i128) * (dt as i128), 1000);
        let gy = tdiv128((gravity.y as i128) * (dt as i128), 1000);
        let vx = clamp128((b.velocity.x as i128) + gx, MAX_VEL);
        let vy = clamp128((b.velocity.y as i128) + gy, MAX_VEL);
        b.velocity = Vec2 { x: vx, y: vy };
        proof {
            lemma_prod_bound(vx as int, dt as int, MAX_VEL as int, MAX_DT as int);
            lemma_prod_bound(vy as int, dt as int, MAX_VEL as int, MAX_DT as int);
            lemma_tdiv_bounded_by_multiple((vx as int) * (dt as int), 1000, 60_000_000_000_000);
            lemma_tdiv_bounded_by_multiple((vy as int) * (dt as int), 1000, 60_000_000_000_000);
        }
        let mx = tdiv128((vx as i128) * (dt as i128), 1000);
        let my = tdiv128((vy as i128) * (dt as i128), 1000);
        b.position = Vec2 {
            x: clamp128((b.position.x as i128) + mx, MAX_POS),
            y: clamp128((b.position.y as i128) + my, MAX_POS),
        };
    }
}

/// Integrate every body of the collection for the time slice `dt`.
pub fn integrate_bodies(bodies: &mut Vec<Body>, gravity: Vec2, dt: i64, active: bool)
    requires
        forall|i: int| 0 <= i < old(bodies).len()
            ==> (#[trigger] old(bodies)@[i]).well_formed(),
        0 <= dt <= MAX_DT,
        -MAX_GRAVITY <= gravity.x <= MAX_GRAVITY,
        -MAX_GRAVITY <= gravity.y <= MAX_GRAVITY,
    ensures
        final(bodies).len() == old(bodies).len(),
        forall|i: int| 0 <= i < old(bodies).len() ==> #[trigger] final(bodies)@[i]
            == if active && !old(bodies)@[i].anchored {
                spec_integrated(old(bodies)@[i], gravity@, dt as int)
            } else {
                old(bodies)@[i]
            },
        forall|i: int| 0 <= i < old(bodies).len()
            ==> (#[trigger] final(bodies)@[i]).well_formed(),
{
    let mut i: usize = 0;
    while i < bodies.len()
        invariant
            bodies.len() == old(bodies).len(),
            i <= bodies.len(),
            0 <= dt <= MAX_DT,
            -MAX_GRAVITY <= gravity.x <= MAX_GRAVITY,
            -MAX_GRAVITY <= gravity.y <= MAX_GRAVITY,
            forall|j: int| 0 <= j < old(bodies).len()
                ==> (#[trigger] old(bodies)@[j]).well_formed(),
            forall|j: int| i <= j < old(bodies).len()
                ==> #[trigger] bodies@[j] == old(bodies)@[j],
            forall|j: int| 0 <= j < i ==> #[trigger] bodies@[j]
                == if active && !old(bodies)@[j].anchored {
                    spec_integrated(old(bodies)@[j], gravity@, dt as int)
                } else {
                    old(bodies)@[j]
                },
            forall|j: int| 0 <= j < i ==> (#[trigger] bodies@[j]).well_formed(),
        decreases bodies.len() - i,
    {
        let mut b = bodies[i];
        integrate_body(&mut b, gravity, dt, active);
        bodies[i] = b;
        i = i + 1;
    }
}

/// The stored fields the solver never touches are kept: rotation,
/// extent and anchoring.
pub open spec fn same_shape(a: Body, b: Body) -> bool {
    &&& a.rotation == b.rotation
    &&& a.size == b.size
    &&& a.anchored == b.anchored
}

/// One pair interaction of the sweep: the broad-phase test, then the
/// narrow phase, then — on contact — positional correction followed by
/// the impulse response, exactly as the executable sweep performs them.
pub open spec fn spec_pair_resolved(a: Body, b: Body) -> (Body, Body) {
    if spec_center_distance(a, b) < spec_broad_radius(a.size@) + spec_broad_radius(b.size@)
        && spec_collides(a, b) {
        let k = spec_best_axis(a, b);
        let depth = spec_overlap_amount(a, b, k);
        let n = spec_oriented_axis(a, b, k);
        let a1 = if a.anchored { a } else { spec_translated(a, v2_neg(spec_shift(n, depth))) };
        let b1 = if b.anchored { b } else { spec_translated(b, spec_shift(n, depth)) };
        let a2 = if a1.anchored { a1 } else { spec_kicked(a1, n, spec_dv_a(a1, b1, n)) };
        let b2 = if b1.anchored { b1 } else { spec_kicked(b1, n, spec_dv_b(a1, b1, n)) };
        (a2, b2)
    } else {
        (a, b)
    }
}

/// The tail of one full pair sweep, starting at the pair `(i, j)`: the
/// pair is resolved in place, then the sweep continues in index order —
/// `j` runs over the indices after `i`, then `i` advances.
pub open spec fn spec_sweep_from(bodies: Seq<Body>, i: int, j: int) -> Seq<Body>
    decreases bodies.len() - i, bodies.len() - j,
        when 0 <= i && i < j
{
    if i >= bodies.len() {
        bodies
    } else if j >= bodies.len() {
        spec_sweep_from(bodies, i + 1, i + 2)
    } else {
        let r = spec_pair_resolved(bodies[i], bodies[j]);
        spec_sweep_from(bodies.update(i, r.0).update(j, r.1), i, j + 1)
    }
}

/// `rounds` full sweeps over every unordered pair.
pub open spec fn spec_sweeps(bodies: Seq<Body>, rounds: int) -> Seq<Body>
    decreases rounds,
{
    if rounds <= 0 {
        bodies
    } else {
        spec_sweeps(spec_sweep_from(bodies, 0, 1), rounds - 1)
    }
}

/// Running one more round sweeps the result of the earlier rounds.
proof fn lemma_sweeps_one_more(bodies: Seq<Body>, rounds: int)
    requires
        rounds >= 0,
    ensures
        spec_sweeps(bodies, rounds + 1) == spec_sweep_from(spec_sweeps(bodies, rounds), 0, 1),
    decreases rounds,
{
    let swept = spec_sweep_from(bodies, 0, 1);
    assert(spec_sweeps(bodies, rounds + 1) == spec_sweeps(swept, rounds));
    if rounds == 0 {
        assert(spec_sweeps(swept, 0) == swept);
        assert(spec_sweeps(bodies, 0) == bodies);
    } else {
        lemma_sweeps_one_more(swept, rounds - 1);
        assert(spec_sweeps(bodies, rounds) == spec_sweeps(swept, rounds - 1));
    }
}

/// Every body integrated for the time slice, in place.
pub open spec fn spec_integrated_all(bodies: Seq<Body>, gravity: V2, dt: int, active: bool) -> Seq<Body> {
    Seq::new(bodies.len(), |i: int| if active && !bodies[i].anchored {
        spec_integrated(bodies[i], gravity, dt)
    } else {
        bodies[i]
    })
}

/// One whole step: integration of every body, then the configured number
/// of full pair sweeps.
pub open spec fn spec_step(bodies: Seq<Body>, config: StepConfig, dt: int, active: bool) -> Seq<Body> {
    spec_sweeps(
        spec_integrated_all(bodies, config.gravity@, dt, active),
        config.solver_iterations as int,
    )
}

/// One simulation step: integrate motion, then run the solver's full
/// pair sweep `config.solver_iterations` times, resolving every
/// colliding pair positionally and by impulse as it is found.
///
/// The post-state is pinned exactly by [`spec_step`]: per-body
/// semi-implicit integration followed by the sweeps, each pair passed
/// through the broad test, the separating-axis verdict and the two
/// resolution stages.  In consequence anchored bodies come out exactly
/// as they went in, every body stays well formed, and no body's
/// rotation, extent or anchoring changes.
pub fn step(bodies: &mut Vec<Body>, config: &StepConfig, delta_time: i64, active: bool)
    requires
        config.well_formed(),
        0 <= delta_time <= MAX_DT,
        forall|i: int| 0 <= i < old(bodies).len()
            ==> (#[trigger] old(bodies)@[i]).well_formed(),
    ensures
        final(bodies).len() == old(bodies).len(),
        forall|i: int| 0 <= i < old(bodies).len()
            ==> (#[trigger] final(bodies)@[i]).well_formed(),
        forall|i: int| 0 <= i < old(bodies).len() && old(bodies)@[i].anchored
            ==> #[trigger] final(bodies)@[i] == old(bodies)@[i],
        forall|i: int| 0 <= i < old(bodies).len()
            ==> same_shape(#[trigger] final(bodies)@[i], old(bodies)@[i]),
        final(bodies)@ == spec_step(old(bodies)@, *config, delta_time as int, active),
{
    integrate_bodies(bodies, config.gravity, delta_time, active);
    proof {
        assert(bodies@
            =~= spec_integrated_all(old(bodies)@, config.gravity@, delta_time as int, active));
    }
    let ghost mid = bodies@;
    let mut iteration: usize = 0;
    while iteration < config.solver_iterations
        invariant
            bodies.len() == old(bodies).len(),
            forall|i: int| 0 <= i < old(bodies).len()
                ==> (#[trigger] bodies@[i]).well_formed(),
            forall|i: int| 0 <= i < old(bodies).len() && old(bodies)@[i].anchored
                ==> #[trigger] bodies@[i] == old(bodies)@[i],
            forall|i: int| 0 <= i < old(bodies).len()
                ==> same_shape(#[trigger] bodies@[i], old(bodies)@[i]),
            iteration <= config.solver_iterations,
            mid == spec_integrated_all(old(bodies)@, config.gravity@, delta_time as int, active),
            bodies@ == spec_sweeps(mid, iteration as int),
        decreases config.solver_iterations - iteration,
    {
        proof {
            lemma_sweeps_one_more(mid, iteration as int);
        }
        solve_pairs_once(bodies);
        iteration = iteration + 1;
    }
}

/// One full sweep over every unordered pair, in index order: broad
/// phase, then narrow phase, then resolution for each colliding pair.
fn solve_pairs_once(bodies: &mut Vec<Body>)
    requires
        forall|i: int| 0 <= i < old(bodies).len()
            ==> (#[trigger] old(bodies)@[i]).well_formed(),
    ensures
        final(bodies).len() == old(bodies).len(),
        forall|i: int| 0 <= i < old(bodies).len()
            ==> (#[trigger] final(bodies)@[i]).well_formed(),
        forall|i: int| 0 <= i < old(bodies).len() && old(bodies)@[i].anchored
            ==> #[trigger] final(bodies)@[i] == old(bodies)@[i],
        forall|i: int| 0 <= i < old(bodies).len()
            ==> same_shape(#[trigger] final(bodies)@[i], old(bodies)@[i]),
        final(bodies)@ == spec_sweep_from(old(bodies)@, 0, 1),
{
    let mut i: usize = 0;
    while i < bodies.len()
        invariant
            bodies.len() == old(bodies).len(),
            i <= bodies.len(),
            forall|k: int| 0 <= k < old(bodies).len()
                ==> (#[trigger] old(bodies)@[k]).well_formed(),
            forall|k: int| 0 <= k < old(bodies).len()
                ==> (#[trigger] bodies@[k]).well_formed(),
            forall|k: int| 0 <= k < old(bodies).len() && old(bodies)@[k].anchored
                ==> #[trigger] bodies@[k] == old(bodies)@[k],
            forall|k: int| 0 <= k < old(bodies).len()
                ==> same_shape(#[trigger] bodies@[k], old(bodies)@[k]),
            spec_sweep_from(old(bodies)@, 0, 1)
                == spec_sweep_from(bodies@, i as int, i as int + 1),
        decreases bodies.len() - i,
    {
        let mut j: usize = i + 1;
        while j < bodies.len()
            invariant
                bodies.len() == old(bodies).len(),
                j <= bodies.len(),
                i < bodies.len(),
                i < j,
                forall|k: int| 0 <= k < old(bodies).len()
                    ==> (#[trigger] old(bodies)@[k]).well_formed(),
                forall|k: int| 0 <= k < old(bodies).len()
                    ==> (#[trigger] bodies@[k]).well_formed(),
                forall|k: int| 0 <= k < old(bodies).len() && old(bodies)@[k].anchored
                    ==> #[trigger] bodies@[k] == old(bodies)@[k],
                forall|k: int| 0 <= k < old(bodies).len()
                    ==> same_shape(#[trigger] bodies@[k], old(bodies)@[k]),
                spec_sweep_from(old(bodies)@, 0, 1)
                    == spec_sweep_from(bodies@, i as int, j as int),
            decreases bodies.len() - j,
        {
            let mut element = bodies[i];
            let mut other = bodies[j];
            let ghost before = bodies@;
            let ghost pa = bodies@[i as int];
            let ghost pb = bodies@[j as int];
            if check_broad_collision(&element, &other) {
                match check_precise_collision(&element, &other) {
                    Collision::Contact { depth, normal } => {
                        resolve_collision(&mut element, &mut other, depth, normal);
                        resolve_velocities(&mut element, &mut other, normal);
                        proof {
                            assert(element == spec_pair_resolved(pa, pb).0);
                            assert(other == spec_pair_resolved(pa, pb).1);
                        }
                        bodies[i] = element;
                        bodies[j] = other;
                        proof {
                            assert(spec_sweep_from(before, i as int, j as int)
                                == spec_sweep_from(bodies@, i as int, j as int + 1));
                        }
                    },
                    Collision::Separated => {
                        proof {
                            assert(spec_pair_resolved(pa, pb) == (pa, pb));
                            lemma_update_with_own_entries(before, i as int, j as int);
                            assert(spec_sweep_from(before, i as int, j as int)
                                == spec_sweep_from(bodies@, i as int, j as int + 1));
                        }
                    },
                }
            } else {
                proof {
                    assert(spec_pair_resolved(pa, pb) == (pa, pb));
                    lemma_update_with_own_entries(before, i as int, j as int);
                    assert(spec_sweep_from(before, i as int, j as int)
                        == spec_sweep_from(bodies@, i as int, j as int + 1));
                }
            }
            j = j + 1;
        }
        proof {
            assert(spec_sweep_from(bodies@, i as int, j as int)
                == spec_sweep_from(bodies@, i as int + 1, i as int + 2));
        }
        i = i + 1;
    }
    proof {
        assert(spec_sweep_from(bodies@, i as int, i as int + 1) == bodies@);
    }
}

/// Writing a sequence's own entries back leaves it unchanged.
proof fn lemma_update_with_own_entries(s: Seq<Body>, i: int, j: int)
    requires
        0 <= i < s.len(),
        0 <= j < s.len(),
    ensures
        s.update(i, s[i]).update(j, s[j]) == s,
{
    assert(s.update(i, s[i]).update(j, s[j]) =~= s);
}

} // verus!
