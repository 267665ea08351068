//! The decision core of a Monte Carlo path tracer.
//!
//! Scalars are single-precision values carried by their bit patterns. The
//! arithmetic on them happens outside this crate; every comparison, every
//! selection among candidates and every piece of bookkeeping that a render
//! depends on is decided here, and proved.
//!
//! - [`scalar`]: the order of scalars, and the byte that a scalar is cut to.
//! - [`math`]: the clamp of a cosine.
//! - [`sphere`]: which crossing of a ray and a sphere counts as the hit.
//! - [`hitable`]: ranges of ray parameters, and the nearest hit of a scene.
//! - [`material`]: which lobe a surface scatters into.
//! - [`radiance`]: the bounce budget of a path, and what a path ends in.
//! - [`color`] and [`film`]: the grid of pixels and the bytes of its image.

pub mod color;
pub mod film;
pub mod hitable;
pub mod material;
pub mod math;
pub mod radiance;
pub mod scalar;
pub mod sphere;
