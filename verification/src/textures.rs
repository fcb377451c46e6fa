//! The textures that the pipeline works in, described by extent, layers and
//! texel format.  They are allocated once at setup and only ever rewritten.

use vstd::prelude::*;
use crate::pipeline::{OceanComputePipeline, CASCADE_COUNT};

verus! {

/// Texel format of a texture: its channels are single precision numbers.
#[derive(Clone, Copy, Debug, PartialEq, Eq, Structural)]
pub enum TextureFormat {
    /// Four channels: two complex numbers, or a displacement and a foam term.
    Rgba32Float,
    /// Two channels: one complex number, or the two slopes of a gradient.
    Rg32Float,
}

impl TextureFormat {
    /// Number of channels of one texel.
    pub open spec fn channel_count(self) -> nat {
        match self {
            TextureFormat::Rgba32Float => 4,
            TextureFormat::Rg32Float => 2,
        }
    }

    /// Number of channels of one texel.
    pub fn channels(self) -> (c: u32)
        ensures
            c == self.channel_count(),
    {
        match self {
            TextureFormat::Rgba32Float => 4,
            TextureFormat::Rg32Float => 2,
        }
    }

    /// Size of one texel in bytes: four for each channel.
    pub fn bytes_per_texel(self) -> (b: u32)
        ensures
            b == 4 * self.channel_count(),
    {
        4 * self.channels()
    }
}

/// What a texture may be used for.
#[derive(Clone, Copy, Debug, PartialEq, Eq, Structural)]
pub struct TextureUsage {
    /// Data may be copied into the texture.
    pub copy_dst: bool,
    /// Kernels may bind the texture for storage.
    pub storage_binding: bool,
    /// Shaders may sample the texture.
    pub texture_binding: bool,
}

/// Extent, depth, format, first contents and use of one array texture.
#[derive(Clone, Copy, Debug, PartialEq, Eq, Structural)]
pub struct TextureLayout {
    pub width: u32,
    pub height: u32,
    /// Number of array layers.
    pub layers: u32,
    pub format: TextureFormat,
    /// Renderers sample the texture with linear filtering, both when it is
    /// magnified and when it is minified.
    pub filtered: bool,
    /// The value of every byte of the texture when it is made.
    pub fill: u8,
    pub usage: TextureUsage,
}

/// Every texture of the pipeline is copied into, bound for storage and
/// sampled.
pub open spec fn pipeline_usage() -> TextureUsage {
    TextureUsage { copy_dst: true, storage_binding: true, texture_binding: true }
}

/// The four textures of the pipeline.
#[derive(Clone, Copy, Debug, PartialEq, Eq, Structural)]
pub struct OceanComputeTextures {
    /// Displacement and foam term of every cascade; read by renderers.
    pub displacements: TextureLayout,
    /// Surface slopes of every cascade; read by renderers.
    pub gradients: TextureLayout,
    /// Initial spectrum of every cascade, amplitude and mirrored conjugate.
    pub init_spectrum_textures: TextureLayout,
    /// Time-dependent spectrum and its transform, two layers to a cascade.
    pub spectrum_textures: TextureLayout,
}

/// The textures of a pipeline whose fields have edge length `size`: all
/// square and of that edge, one layer for each cascade in the maps and in
/// the initial spectrum and two in the time-dependent spectrum, gradients in
/// two channels and everything else in four, the two maps filtered, every
/// byte zero at first, so that every channel reads as zero.
///
/// The spectra take four channels because a texel holds two complex numbers:
/// the initial spectrum an amplitude and the conjugate of its mirror, the
/// time-dependent spectrum two of the quantities that are transformed.
pub open spec fn texture_layouts(size: nat) -> OceanComputeTextures {
    OceanComputeTextures {
        displacements: TextureLayout {
            width: size as u32,
            height: size as u32,
            layers: CASCADE_COUNT as u32,
            format: TextureFormat::Rgba32Float,
            filtered: true,
            fill: 0,
            usage: pipeline_usage(),
        },
        gradients: TextureLayout {
            width: size as u32,
            height: size as u32,
            layers: CASCADE_COUNT as u32,
            format: TextureFormat::Rg32Float,
            filtered: true,
            fill: 0,
            usage: pipeline_usage(),
        },
        init_spectrum_textures: TextureLayout {
            width: size as u32,
            height: size as u32,
            layers: CASCADE_COUNT as u32,
            format: TextureFormat::Rgba32Float,
            filtered: false,
            fill: 0,
            usage: pipeline_usage(),
        },
        spectrum_textures: TextureLayout {
            width: size as u32,
            height: size as u32,
            layers: (2 * CASCADE_COUNT) as u32,
            format: TextureFormat::Rgba32Float,
            filtered: false,
            fill: 0,
            usage: pipeline_usage(),
        },
    }
}

/// Describes the textures that `pipeline` works in.
pub fn setup_textures(pipeline: &OceanComputePipeline) -> (textures: OceanComputeTextures)
    ensures
        textures == texture_layouts(pipeline@.size),
{
    let n: u32 = pipeline.size();
    let cascades: u32 = CASCADE_COUNT as u32;
    let usage = TextureUsage { copy_dst: true, storage_binding: true, texture_binding: true };
    OceanComputeTextures {
        displacements: TextureLayout {
            width: n,
            height: n,
            layers: cascades,
            format: TextureFormat::Rgba32Float,
            filtered: true,
            fill: 0,
            usage,
        },
        gradients: TextureLayout {
            width: n,
            height: n,
            layers: cascades,
            format: TextureFormat::Rg32Float,
            filtered: true,
            fill: 0,
            usage,
        },
        init_spectrum_textures: TextureLayout {
            width: n,
            height: n,
            layers: cascades,
            format: TextureFormat::Rgba32Float,
            filtered: false,
            fill: 0,
            usage,
        },
        spectrum_textures: TextureLayout {
            width: n,
            height: n,
            layers: 2 * cascades,
            format: TextureFormat::Rgba32Float,
            filtered: false,
            fill: 0,
            usage,
        },
    }
}

} // verus!
