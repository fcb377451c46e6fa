//! The resources that the kernels share, how each is bound, what each kernel
//! is compiled with, and what each kernel reads and writes.

use vstd::prelude::*;
use crate::stage::Stage;
use crate::textures::TextureFormat;

verus! {

/// A buffer or texture of the pipeline.  The variants stand in binding order.
#[derive(Clone, Copy, Debug, PartialEq, Eq, Structural)]
pub enum Resource {
    /// The global simulation parameters, uploaded every frame.
    Settings,
    /// The derived parameters of all spectrum slots, uploaded every frame.
    SpectrumParameters,
    /// The displacement map.
    Displacements,
    /// The gradient map.
    Gradients,
    /// The initial spectrum.
    InitialSpectrum,
    /// The time-dependent spectrum, transformed in place.
    TimeSpectrum,
}

/// How a resource is bound.
#[derive(Clone, Copy, Debug, PartialEq, Eq, Structural)]
pub enum BindingKind {
    /// A uniform buffer.
    Uniform,
    /// A storage buffer that kernels may write.
    Storage,
    /// A storage texture array that kernels read and write.
    ReadWriteTexture(TextureFormat),
    /// A storage texture array that kernels only write.
    WriteOnlyTexture(TextureFormat),
}

/// The shader stages that see a binding.
#[derive(Clone, Copy, Debug, PartialEq, Eq, Structural)]
pub struct Visibility {
    pub vertex: bool,
    pub fragment: bool,
    pub compute: bool,
}

/// How a texture is viewed through a binding.
#[derive(Clone, Copy, Debug, PartialEq, Eq, Structural)]
pub enum ViewDimension {
    /// A single two-dimensional image.
    D2,
    /// An array of two-dimensional layers.
    D2Array,
}

/// The least size that a bound buffer must have.
#[derive(Clone, Copy, Debug, PartialEq, Eq, Structural)]
pub enum MinBindingSize {
    /// The size of the structure that the buffer holds.
    Contents,
    /// The binding is no buffer.
    Absent,
}

/// One entry of the bind group layout.
#[derive(Clone, Copy, Debug, PartialEq, Eq, Structural)]
pub struct Binding {
    pub slot: u32,
    pub resource: Resource,
    pub kind: BindingKind,
    pub visibility: Visibility,
    /// The view of a texture; nothing for a buffer.
    pub dimension: Option<ViewDimension>,
    pub min_size: MinBindingSize,
    /// The buffer is bound at an offset that changes from dispatch to
    /// dispatch.
    pub dynamic_offset: bool,
}

/// Only compute kernels see the bindings of the pipeline.
pub open spec fn compute_only() -> Visibility {
    Visibility { vertex: false, fragment: false, compute: true }
}

impl Resource {
    /// Slot of the resource in the bind group.
    pub open spec fn slot(self) -> nat {
        match self {
            Resource::Settings => 0,
            Resource::SpectrumParameters => 1,
            Resource::Displacements => 2,
            Resource::Gradients => 3,
            Resource::InitialSpectrum => 4,
            Resource::TimeSpectrum => 5,
        }
    }

    /// How the resource is bound.
    pub open spec fn kind(self) -> BindingKind {
        match self {
            Resource::Settings => BindingKind::Uniform,
            Resource::SpectrumParameters => BindingKind::Storage,
            Resource::Displacements => BindingKind::ReadWriteTexture(TextureFormat::Rgba32Float),
            Resource::Gradients => BindingKind::WriteOnlyTexture(TextureFormat::Rg32Float),
            Resource::InitialSpectrum => BindingKind::ReadWriteTexture(TextureFormat::Rgba32Float),
            Resource::TimeSpectrum => BindingKind::ReadWriteTexture(TextureFormat::Rgba32Float),
        }
    }

    /// The resource is a buffer, not a texture.
    pub open spec fn is_buffer(self) -> bool {
        self == Resource::Settings || self == Resource::SpectrumParameters
    }

    /// The layout entry of the resource: its slot and kind, seen by compute
    /// kernels only; a buffer at least as large as the structure it holds and
    /// bound at a fixed offset, a texture viewed as an array of layers.
    pub open spec fn entry(self) -> Binding {
        Binding {
            slot: self.slot() as u32,
            resource: self,
            kind: self.kind(),
            visibility: compute_only(),
            dimension: if self.is_buffer() {
                None
            } else {
                Some(ViewDimension::D2Array)
            },
            min_size: if self.is_buffer() {
                MinBindingSize::Contents
            } else {
                MinBindingSize::Absent
            },
            dynamic_offset: false,
        }
    }

    /// The layout entry of the resource.
    pub fn binding(self) -> (b: Binding)
        ensures
            b == self.entry(),
    {
        let visibility = Visibility { vertex: false, fragment: false, compute: true };
        let (slot, kind, buffer): (u32, BindingKind, bool) = match self {
            Resource::Settings => (0, BindingKind::Uniform, true),
            Resource::SpectrumParameters => (1, BindingKind::Storage, true),
            Resource::Displacements => (
                2,
                BindingKind::ReadWriteTexture(TextureFormat::Rgba32Float),
                false,
            ),
            Resource::Gradients => (
                3,
                BindingKind::WriteOnlyTexture(TextureFormat::Rg32Float),
                false,
            ),
            Resource::InitialSpectrum => (
                4,
                BindingKind::ReadWriteTexture(TextureFormat::Rgba32Float),
                false,
            ),
            Resource::TimeSpectrum => (
                5,
                BindingKind::ReadWriteTexture(TextureFormat::Rgba32Float),
                false,
            ),
        };
        if buffer {
            Binding {
                slot,
                resource: self,
                kind,
                visibility,
                dimension: None,
                min_size: MinBindingSize::Contents,
                dynamic_offset: false,
            }
        } else {
            Binding {
                slot,
                resource: self,
                kind,
                visibility,
                dimension: Some(ViewDimension::D2Array),
                min_size: MinBindingSize::Absent,
                dynamic_offset: false,
            }
        }
    }
}

/// For each resource, whether it exists on the device this frame.
#[derive(Clone, Copy, Debug, PartialEq, Eq, Structural)]
pub struct ResourcePresence {
    pub settings: bool,
    pub spectrum_parameters: bool,
    pub displacements: bool,
    pub gradients: bool,
    pub initial_spectrum: bool,
    pub time_spectrum: bool,
}

impl ResourcePresence {
    /// Whether `resource` exists.
    pub open spec fn has(self, resource: Resource) -> bool {
        match resource {
            Resource::Settings => self.settings,
            Resource::SpectrumParameters => self.spectrum_parameters,
            Resource::Displacements => self.displacements,
            Resource::Gradients => self.gradients,
            Resource::InitialSpectrum => self.initial_spectrum,
            Resource::TimeSpectrum => self.time_spectrum,
        }
    }

    /// Every resource exists, so the bind group can be made.
    pub open spec fn complete(self) -> bool {
        self.settings && self.spectrum_parameters && self.displacements && self.gradients
            && self.initial_spectrum && self.time_spectrum
    }
}

/// The presence is complete exactly if no resource is missing.
pub proof fn lemma_complete_presence(present: ResourcePresence)
    ensures
        present.complete() <==> forall|resource: Resource| present.has(resource),
{
    if forall|resource: Resource| present.has(resource) {
        assert(present.has(Resource::Settings));
        assert(present.has(Resource::SpectrumParameters));
        assert(present.has(Resource::Displacements));
        assert(present.has(Resource::Gradients));
        assert(present.has(Resource::InitialSpectrum));
        assert(present.has(Resource::TimeSpectrum));
    }
}

/// All resources in binding order.
pub open spec fn all_resources() -> Seq<Resource> {
    seq![
        Resource::Settings,
        Resource::SpectrumParameters,
        Resource::Displacements,
        Resource::Gradients,
        Resource::InitialSpectrum,
        Resource::TimeSpectrum,
    ]
}

/// The entries of the one bind group that every kernel uses: entry `i` binds
/// the resource of slot `i`.
pub open spec fn layout_entries() -> Seq<Binding> {
    Seq::new(all_resources().len(), |i: int| all_resources()[i].entry())
}

/// The layout of the one bind group that every kernel uses.
pub fn bind_group_layout() -> (layout: Vec<Binding>)
    ensures
        layout@ == layout_entries(),
{
    let mut layout: Vec<Binding> = Vec::new();
    layout.push(Resource::Settings.binding());
    layout.push(Resource::SpectrumParameters.binding());
    layout.push(Resource::Displacements.binding());
    layout.push(Resource::Gradients.binding());
    layout.push(Resource::InitialSpectrum.binding());
    layout.push(Resource::TimeSpectrum.binding());
    assert(layout@ =~= layout_entries());
    layout
}

/// What a kernel is compiled with.
#[derive(Debug)]
pub struct KernelDescription {
    pub stage: Stage,
    /// Name of the entry point in the shader module.
    pub entry_point: &'static str,
    /// The bind group layouts of the kernel, group 0 first.
    pub layouts: Vec<Vec<Binding>>,
    /// Number of push constant ranges.
    pub push_constant_ranges: u32,
}

/// Describes the kernel of `stage`: it is entered at the entry point of its
/// stage, and its only bind group is the one that all kernels share.
pub fn kernel_description(stage: Stage) -> (kernel: KernelDescription)
    ensures
        kernel.stage == stage,
        kernel.entry_point@ == stage.entry_point_name(),
        kernel.layouts@.len() == 1,
        kernel.layouts@[0]@ == layout_entries(),
        kernel.push_constant_ranges == 0,
{
    let mut layouts: Vec<Vec<Binding>> = Vec::new();
    layouts.push(bind_group_layout());
    KernelDescription { stage, entry_point: stage.entry_point(), layouts, push_constant_ranges: 0 }
}

/// The field that `stage` takes its input from.
pub open spec fn input_of(stage: Stage) -> Option<Resource> {
    match stage {
        Stage::InitializeSpectrum => None,
        Stage::PackSpectrumConjugates => Some(Resource::InitialSpectrum),
        Stage::UpdateSpectrum => Some(Resource::InitialSpectrum),
        Stage::HorizontalFft => Some(Resource::TimeSpectrum),
        Stage::VerticalFft => Some(Resource::TimeSpectrum),
        Stage::AssembleMaps => Some(Resource::TimeSpectrum),
    }
}

/// The field that `stage` writes its result to.  The assembler writes the
/// displacement map, and the gradient map along with it.
pub open spec fn output_of(stage: Stage) -> Resource {
    match stage {
        Stage::InitializeSpectrum => Resource::InitialSpectrum,
        Stage::PackSpectrumConjugates => Resource::InitialSpectrum,
        Stage::UpdateSpectrum => Resource::TimeSpectrum,
        Stage::HorizontalFft => Resource::TimeSpectrum,
        Stage::VerticalFft => Resource::TimeSpectrum,
        Stage::AssembleMaps => Resource::Displacements,
    }
}

/// The field that `stage` takes its input from, if it has one.
pub fn stage_input(stage: Stage) -> (r: Option<Resource>)
    ensures
        r == input_of(stage),
{
    match stage {
        Stage::InitializeSpectrum => None,
        Stage::PackSpectrumConjugates | Stage::UpdateSpectrum => Some(Resource::InitialSpectrum),
        _ => Some(Resource::TimeSpectrum),
    }
}

/// The field that `stage` writes its result to.
pub fn stage_output(stage: Stage) -> (r: Resource)
    ensures
        r == output_of(stage),
{
    match stage {
        Stage::InitializeSpectrum | Stage::PackSpectrumConjugates => Resource::InitialSpectrum,
        Stage::AssembleMaps => Resource::Displacements,
        _ => Resource::TimeSpectrum,
    }
}

/// The initial spectrum is written by the two kernels of a regeneration and
/// by no other kernel: between regenerations it stays as the packer left it.
pub proof fn lemma_only_regeneration_writes_the_initial_spectrum(stage: Stage)
    ensures
        output_of(stage) == Resource::InitialSpectrum <==> stage.regenerates(),
{
}

/// Each kernel behind the generator reads the field that the kernel before
/// it in pipeline order wrote, so no kernel may overtake its predecessor.
pub proof fn lemma_stage_consumes_predecessor(before: Stage, after: Stage)
    requires
        after.rank() == before.rank() + 1,
    ensures
        input_of(after) == Some(output_of(before)),
{
}

} // verus!
