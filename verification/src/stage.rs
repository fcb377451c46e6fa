//! The kernels of the pipeline as a fixed table: their order, their entry
//! points, the work each dispatch covers and the resources they are bound to.

use vstd::prelude::*;
use crate::pipeline::{OceanComputePipeline, PipelineShape, WORKGROUP_SIZE};

verus! {

/// One kernel of the pipeline.  The variants stand in dispatch order.
#[derive(Clone, Copy, Debug, PartialEq, Eq, Structural)]
pub enum Stage {
    /// Builds the initial complex spectrum from the statistical model.
    InitializeSpectrum,
    /// Stores beside every amplitude the conjugate of its mirrored partner.
    PackSpectrumConjugates,
    /// Advances the phase of the spectrum to the time of the frame.
    UpdateSpectrum,
    /// Transforms every row.
    HorizontalFft,
    /// Transforms every column of what the horizontal pass left.
    VerticalFft,
    /// Combines the spatial fields into displacement and gradient maps.
    AssembleMaps,
}

impl Stage {
    /// Position of the kernel in the order of a frame.
    pub open spec fn rank(self) -> nat {
        match self {
            Stage::InitializeSpectrum => 0,
            Stage::PackSpectrumConjugates => 1,
            Stage::UpdateSpectrum => 2,
            Stage::HorizontalFft => 3,
            Stage::VerticalFft => 4,
            Stage::AssembleMaps => 5,
        }
    }

    /// The kernel regenerates the initial spectrum and so runs only on demand.
    pub open spec fn regenerates(self) -> bool {
        self == Stage::InitializeSpectrum || self == Stage::PackSpectrumConjugates
    }

    /// The kernel is one of the two transform passes, in which a whole group
    /// works on one row or column.
    pub open spec fn transforms(self) -> bool {
        self == Stage::HorizontalFft || self == Stage::VerticalFft
    }

    /// Name of the kernel's entry point in the shader module.
    pub open spec fn entry_point_name(self) -> Seq<char> {
        match self {
            Stage::InitializeSpectrum => "initialize_spectrum"@,
            Stage::PackSpectrumConjugates => "pack_spectrum_conjugates"@,
            Stage::UpdateSpectrum => "update_spectrum"@,
            Stage::HorizontalFft => "horizontal_fft"@,
            Stage::VerticalFft => "vertical_fft"@,
            Stage::AssembleMaps => "assemble_maps"@,
        }
    }

    /// Name of the kernel's entry point in the shader module.
    pub fn entry_point(self) -> (name: &'static str)
        ensures
            name@ == self.entry_point_name(),
    {
        match self {
            Stage::InitializeSpectrum => "initialize_spectrum",
            Stage::PackSpectrumConjugates => "pack_spectrum_conjugates",
            Stage::UpdateSpectrum => "update_spectrum",
            Stage::HorizontalFft => "horizontal_fft",
            Stage::VerticalFft => "vertical_fft",
            Stage::AssembleMaps => "assemble_maps",
        }
    }

    /// Position of the kernel in the order of a frame.
    pub fn index(self) -> (i: usize)
        ensures
            i == self.rank(),
    {
        match self {
            Stage::InitializeSpectrum => 0,
            Stage::PackSpectrumConjugates => 1,
            Stage::UpdateSpectrum => 2,
            Stage::HorizontalFft => 3,
            Stage::VerticalFft => 4,
            Stage::AssembleMaps => 5,
        }
    }
}

/// All kernels in dispatch order.
pub open spec fn all_stages() -> Seq<Stage> {
    seq![
        Stage::InitializeSpectrum,
        Stage::PackSpectrumConjugates,
        Stage::UpdateSpectrum,
        Stage::HorizontalFft,
        Stage::VerticalFft,
        Stage::AssembleMaps,
    ]
}

/// The table of kernels, resolved once at setup.
pub fn stage_table() -> (table: Vec<Stage>)
    ensures
        table@ == all_stages(),
{
    let mut table: Vec<Stage> = Vec::new();
    table.push(Stage::InitializeSpectrum);
    table.push(Stage::PackSpectrumConjugates);
    table.push(Stage::UpdateSpectrum);
    table.push(Stage::HorizontalFft);
    table.push(Stage::VerticalFft);
    table.push(Stage::AssembleMaps);
    table
}

/// One recorded dispatch: a kernel and the number of groups along each axis.
#[derive(Clone, Copy, Debug, PartialEq, Eq, Structural)]
pub struct Dispatch {
    pub stage: Stage,
    pub groups_x: u32,
    pub groups_y: u32,
    pub groups_z: u32,
}

/// The dispatch of `stage` over fields of edge length `size`.  A per-texel
/// kernel is covered by square groups of [`WORKGROUP_SIZE`] texels a side; a
/// transform pass gets one group for each row or column.
pub open spec fn dispatch_of(stage: Stage, size: nat) -> Dispatch {
    if stage.transforms() {
        Dispatch { stage, groups_x: 1, groups_y: size as u32, groups_z: 1 }
    } else {
        Dispatch {
            stage,
            groups_x: (size / (WORKGROUP_SIZE as nat)) as u32,
            groups_y: (size / (WORKGROUP_SIZE as nat)) as u32,
            groups_z: 1,
        }
    }
}

/// Number of texels that one group of `stage` works on along each axis.
pub open spec fn group_extent(stage: Stage, size: nat) -> (nat, nat) {
    if stage.transforms() {
        (size, 1)
    } else {
        (WORKGROUP_SIZE as nat, WORKGROUP_SIZE as nat)
    }
}

/// The dispatch of `stage` on `pipeline`.
pub fn dispatch_for(stage: Stage, pipeline: &OceanComputePipeline) -> (d: Dispatch)
    ensures
        d == dispatch_of(stage, pipeline@.size),
{
    let n: u32 = pipeline.size();
    match stage {
        Stage::HorizontalFft | Stage::VerticalFft => Dispatch {
            stage,
            groups_x: 1,
            groups_y: n,
            groups_z: 1,
        },
        _ => Dispatch {
            stage,
            groups_x: n / WORKGROUP_SIZE,
            groups_y: n / WORKGROUP_SIZE,
            groups_z: 1,
        },
    }
}

/// Every dispatch of a valid pipeline covers the field exactly: along each
/// axis the groups times the texels of one group give the edge length, so each
/// texel belongs to one invocation and none lies outside the field.
pub proof fn lemma_dispatch_covers_field(stage: Stage, shape: PipelineShape)
    requires
        shape.valid(),
    ensures
        dispatch_of(stage, shape.size).stage == stage,
        dispatch_of(stage, shape.size).groups_x * group_extent(stage, shape.size).0 == shape.size,
        dispatch_of(stage, shape.size).groups_y * group_extent(stage, shape.size).1 == shape.size,
        dispatch_of(stage, shape.size).groups_z == 1,
{
    crate::pipeline::lemma_valid_shape(shape);
    let n = shape.size;
    assert((n / 8) * 8 == n);
    assert((n / 8) as u32 == n / 8);
}

} // verus!
