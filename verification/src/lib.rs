//! Scheduling, configuration and index arithmetic of a spectral ocean-surface
//! pipeline.
//!
//! The surface is synthesised on a compute device from a statistical wave
//! spectrum: an initial complex spectrum is generated and packed with its
//! mirrored conjugates, advanced in time every frame, taken back to the
//! spatial domain by a two-pass inverse FFT and assembled into displacement
//! and gradient maps.  This crate holds everything about that pipeline that is
//! decided with integers and booleans: which configurations are valid, which
//! kernels a frame dispatches and in what order, when the initial spectrum is
//! regenerated, how texels are addressed and mirrored, which words seed the
//! random samples, and which elements each butterfly of the transform
//! combines.  Real arithmetic is the caller's: the transform takes it as a
//! function, and the values that are only moved or negated are carried as bit
//! patterns.
//!
//! * [`pipeline`]: the validated configuration.
//! * [`stage`], [`bindings`], [`textures`]: the kernels, what they are bound
//!   to and the textures they work in.
//! * [`node`]: the regeneration trigger and the plan of a frame.
//! * [`grid`], [`spectrum`], [`random`]: texel addressing, the packing of
//!   conjugates and the seeds of the samples.
//! * [`fft`], [`transform`], [`exact`]: the butterfly network, its run over
//!   lines and fields, and the proof that it is the inverse transform.
//! * [`mesh`]: the triangles of the plane that the surface is drawn on.
//! * [`lod`]: the sizes of the buffers of a mesh with dynamic detail.

pub mod pipeline;
pub mod stage;
pub mod bindings;
pub mod textures;
pub mod node;
pub mod grid;
pub mod spectrum;
pub mod random;
pub mod fft;
pub mod transform;
pub mod exact;
pub mod mesh;
pub mod lod;
