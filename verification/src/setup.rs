//! Initial conditions: particles scattered over the world, each on a
//! circular orbit around the attractor at the origin.
use crate::barnes_hut::{ATTRACTOR_GM_RAW, ATTRACTOR_SOFTENING_RAW};
use crate::fixed::{Fixed, ONE_RAW};
use crate::geometry::{Point, Rectangle};
use crate::vector::{Particle, Vector};
use core::ops::Neg;
use vstd::prelude::*;

verus! {

/// The seed that the scattering starts from, unless another is asked for.
pub const FIRST_SEED: u32 = 123_456_789;

/// The seed that follows `seed` in the linear congruential sequence.
pub open spec fn next_seed(seed: u32) -> u32 {
    seed.wrapping_mul(1_664_525).wrapping_add(1_013_904_223)
}

/// The seed as a fraction of the greatest seed: a number from zero to one.
pub open spec fn unit_of(seed: u32) -> Fixed {
    Fixed { raw: ((seed * 0x1_0000_0000) / 0xffff_ffff) as i64 }
}

/// Steps the seed and returns it as a number from zero to one.
pub fn next_unit(seed: &mut u32) -> (r: Fixed)
    ensures
        *final(seed) == next_seed(*old(seed)),
        r == unit_of(*final(seed)),
        0 <= r.raw <= ONE_RAW,
{
    *seed = seed.wrapping_mul(1_664_525).wrapping_add(1_013_904_223);
    let n: u64 = (*seed as u64) * 0x1_0000_0000;
    Fixed::from_raw((n / 0xffff_ffff) as i64)
}

/// The velocity at `pos` of a circular orbit around a mass at `center`
/// whose mass times the gravitational constant is `gm`: at right angles to
/// the line to the center, with the speed at which the pull toward the
/// center keeps the distance.
pub open spec fn spec_orbit_velocity(pos: Point, center: Point, gm: Fixed, eps2: Fixed) -> Vector {
    let dx = pos.x - center.x;
    let dy = pos.y - center.y;
    let r = Fixed::spec_soft_hypot(dx, dy, eps2);
    let v = (gm / r).root();
    Vector { x: dy.negated() / r * v, y: dx / r * v }
}

#[verifier::when_used_as_spec(spec_orbit_velocity)]
pub fn orbit_velocity(pos: Point, center: Point, gm: Fixed, eps2: Fixed) -> (velocity: Vector)
    ensures
        velocity == spec_orbit_velocity(pos, center, gm, eps2),
{
    let dx: Fixed = pos.x - center.x;
    let dy: Fixed = pos.y - center.y;
    let r: Fixed = Fixed::soft_hypot(dx, dy, eps2);

    let v: Fixed = (gm / r).sqrt();

    Vector { x: dy.neg() / r * v, y: dx / r * v }
}

/// The particle that the seed `seed` gives: its position drawn from
/// `bounds` with the next two seeds, on a circular orbit around the
/// attractor at the origin, with mass one.
pub open spec fn seeded_particle(bounds: Rectangle, seed: u32) -> Particle {
    let s1 = next_seed(seed);
    let s2 = next_seed(s1);
    let position = Point {
        x: bounds.p1.x + (bounds.p2.x - bounds.p1.x) * unit_of(s1),
        y: bounds.p1.y + (bounds.p2.y - bounds.p1.y) * unit_of(s2),
    };
    Particle {
        position,
        velocity: spec_orbit_velocity(
            position,
            Point { x: Fixed { raw: 0 }, y: Fixed { raw: 0 } },
            Fixed { raw: ATTRACTOR_GM_RAW },
            Fixed { raw: ATTRACTOR_SOFTENING_RAW },
        ),
        mass: Fixed { raw: ONE_RAW },
    }
}

/// The seed after `n` particles have been drawn.
pub open spec fn seed_after(n: nat, seed: u32) -> u32
    decreases n,
{
    if n == 0 {
        seed
    } else {
        next_seed(next_seed(seed_after((n - 1) as nat, seed)))
    }
}

/// `n` particles scattered over `bounds`, drawn one after the other from
/// the sequence that starts at `seed`.
pub fn seed_particles(n: usize, bounds: &Rectangle, seed: u32) -> (particles: Vec<Particle>)
    ensures
        particles@.len() == n,
        forall|k: int|
            0 <= k < n ==> #[trigger] particles@[k] == seeded_particle(
                *bounds,
                seed_after(k as nat, seed),
            ),
{
    let mut particles: Vec<Particle> = Vec::with_capacity(n);
    let mut seed: u32 = seed;
    let ghost first = seed;
    let center: Point = Point::zero();
    let gm: Fixed = Fixed::from_raw(ATTRACTOR_GM_RAW);
    let eps2: Fixed = Fixed::from_raw(ATTRACTOR_SOFTENING_RAW);
    let mut i: usize = 0;
    while i < n
        invariant
            i <= n,
            particles@.len() == i,
            seed == seed_after(i as nat, first),
            center == (Point { x: Fixed { raw: 0 }, y: Fixed { raw: 0 } }),
            gm.raw == ATTRACTOR_GM_RAW,
            eps2.raw == ATTRACTOR_SOFTENING_RAW,
            forall|k: int|
                0 <= k < i ==> #[trigger] particles@[k] == seeded_particle(
                    *bounds,
                    seed_after(k as nat, first),
                ),
        decreases n - i,
    {
        let ux: Fixed = next_unit(&mut seed);
        let uy: Fixed = next_unit(&mut seed);
        let x: Fixed = bounds.p1.x + (bounds.p2.x - bounds.p1.x) * ux;
        let y: Fixed = bounds.p1.y + (bounds.p2.y - bounds.p1.y) * uy;
        let position: Point = Point { x, y };
        particles.push(
            Particle {
                position,
                velocity: orbit_velocity(position, center, gm, eps2),
                mass: Fixed::one(),
            },
        );
        i += 1;
    }
    particles
}

} // verus!
