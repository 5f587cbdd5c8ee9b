//! What holds of the collision response and of a whole step.
use crate::barnes_hut::{
    accelerated, after_impulse, collide, collide_row, collide_rows, spec_step,
};
use crate::fixed::Fixed;
use crate::quadtree::TreeView;
use crate::vector::Particle;
use vstd::prelude::*;

verus! {

/// No component of the velocity has been clamped at an end of the range.
pub open spec fn unclamped(p: Particle) -> bool {
    &&& i64::MIN < p.velocity.x.raw < i64::MAX
    &&& i64::MIN < p.velocity.y.raw < i64::MAX
}

/// The impulse is symmetric: between two particles of equal mass it takes
/// from the one exactly the velocity that it gives to the other, so the sum
/// of their velocities, and with it their momentum, stays as it was (as long
/// as no velocity is clamped).
pub proof fn lemma_impulse_is_symmetric(a: Particle, b: Particle, radius: Fixed, e: Fixed)
    requires
        a.mass == b.mass,
        unclamped(collide(a, b, radius, e).0),
        unclamped(collide(a, b, radius, e).1),
    ensures
        collide(a, b, radius, e).0.velocity.x.raw + collide(a, b, radius, e).1.velocity.x.raw
            == a.velocity.x.raw + b.velocity.x.raw,
        collide(a, b, radius, e).0.velocity.y.raw + collide(a, b, radius, e).1.velocity.y.raw
            == a.velocity.y.raw + b.velocity.y.raw,
        collide(a, b, radius, e).0.mass == a.mass,
        collide(a, b, radius, e).1.mass == b.mass,
{
    let (va, vb) = after_impulse(a, b, radius, e);
}

/// Two sequences of particles are as long as each other and agree, place by
/// place, in the masses.
pub open spec fn same_masses(a: Seq<Particle>, b: Seq<Particle>) -> bool {
    a.len() == b.len() && forall|k: int| 0 <= k < a.len() ==> (#[trigger] a[k]).mass == b[k].mass
}

/// Resolving the collisions of one particle with later ones changes no
/// mass and loses no particle.
pub proof fn lemma_collide_row_keeps_masses(ps: Seq<Particle>, i: int, j: int)
    requires
        0 <= i,
        j <= ps.len(),
    ensures
        same_masses(collide_row(ps, i, j), ps),
    decreases j - i,
{
    if j > i + 1 {
        lemma_collide_row_keeps_masses(ps, i, j - 1);
    }
}

/// Resolving the collisions of all pairs changes no mass and loses no
/// particle.
pub proof fn lemma_collide_rows_keeps_masses(ps: Seq<Particle>, i: int)
    requires
        i <= ps.len(),
    ensures
        same_masses(collide_rows(ps, i), ps),
    decreases i,
{
    if i > 0 {
        lemma_collide_rows_keeps_masses(ps, i - 1);
        lemma_collide_row_keeps_masses(collide_rows(ps, i - 1), i - 1, ps.len() as int);
    }
}

/// A step moves the particles and changes their velocities; it changes no
/// mass, and it neither loses nor adds a particle.
pub proof fn lemma_step_keeps_masses(
    ps: Seq<Particle>,
    root: TreeView,
    dt: Fixed,
    theta: Fixed,
    g: Fixed,
    eps2: Fixed,
)
    ensures
        same_masses(spec_step(ps, root, dt, theta, g, eps2), ps),
{
    let fast = ps.map_values(|q: Particle| accelerated(q, root, dt, theta, g, eps2));
    lemma_collide_rows_keeps_masses(fast, fast.len() as int);
}

} // verus!
