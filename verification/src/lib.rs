//! A Barnes-Hut gravity and contact-collision engine for point particles in
//! the plane.
//!
//! Every quantity is a [`fixed::Fixed`]: a saturating fixed-point number
//! with 32 fractional bits, so that each result is one exactly stated
//! integer. [`geometry`] and [`vector`] build points, rectangles, vectors
//! and particles from it. [`quadtree`] holds the spatial partition with its
//! insertion and its mass aggregation, [`search`] the range and
//! nearest-neighbour queries. [`barnes_hut`] evaluates forces over the tree,
//! resolves collisions and advances the particles by one step. [`setup`]
//! scatters the first particles, and [`draw`] maps them to pixels.
//!
//! [`tree_lemmas`], [`force_lemmas`] and [`collision_lemmas`] prove what
//! holds of all trees, all force evaluations and all collisions: no point is
//! lost or doubled, every point lies in its leaf, the aggregated mass is the
//! number of points, an opening angle of zero is exact, and the impulse
//! between equal masses is symmetric.
pub mod fixed;
pub mod geometry;
pub mod vector;
pub mod quadtree;
pub mod search;
pub mod barnes_hut;
pub mod draw;
pub mod setup;
pub mod tree_lemmas;
pub mod force_lemmas;
pub mod collision_lemmas;
