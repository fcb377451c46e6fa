use ocean_spectrum::bindings::{
    bind_group_layout, kernel_description, stage_input, stage_output, Binding, BindingKind,
    MinBindingSize, Resource, ViewDimension, Visibility,
};
use ocean_spectrum::pipeline::{default_cascade_slots, OceanComputePipeline};
use ocean_spectrum::stage::{dispatch_for, stage_table, Dispatch, Stage};
use ocean_spectrum::textures::{setup_textures, TextureFormat, TextureLayout, TextureUsage};

#[test]
fn stage_table_lists_the_kernels_in_dispatch_order() {
    let table = stage_table();
    assert_eq!(
        table,
        vec![
            Stage::InitializeSpectrum,
            Stage::PackSpectrumConjugates,
            Stage::UpdateSpectrum,
            Stage::HorizontalFft,
            Stage::VerticalFft,
            Stage::AssembleMaps,
        ]
    );
    for (i, stage) in table.iter().enumerate() {
        assert_eq!(stage.index(), i);
    }
}

#[test]
fn entry_points_of_the_kernels() {
    assert_eq!(Stage::InitializeSpectrum.entry_point(), "initialize_spectrum");
    assert_eq!(Stage::PackSpectrumConjugates.entry_point(), "pack_spectrum_conjugates");
    assert_eq!(Stage::UpdateSpectrum.entry_point(), "update_spectrum");
    assert_eq!(Stage::HorizontalFft.entry_point(), "horizontal_fft");
    assert_eq!(Stage::VerticalFft.entry_point(), "vertical_fft");
    assert_eq!(Stage::AssembleMaps.entry_point(), "assemble_maps");
}

#[test]
fn texel_kernels_are_covered_by_square_groups() {
    let pipeline = OceanComputePipeline::new(64, default_cascade_slots()).unwrap();
    for stage in [
        Stage::InitializeSpectrum,
        Stage::PackSpectrumConjugates,
        Stage::UpdateSpectrum,
        Stage::AssembleMaps,
    ] {
        assert_eq!(
            dispatch_for(stage, &pipeline),
            Dispatch { stage, groups_x: 8, groups_y: 8, groups_z: 1 }
        );
    }
}

#[test]
fn transform_passes_get_one_group_for_each_line() {
    let pipeline = OceanComputePipeline::new(64, default_cascade_slots()).unwrap();
    for stage in [Stage::HorizontalFft, Stage::VerticalFft] {
        assert_eq!(
            dispatch_for(stage, &pipeline),
            Dispatch { stage, groups_x: 1, groups_y: 64, groups_z: 1 }
        );
    }
}

#[test]
fn smallest_and_largest_field_dispatch() {
    let small = OceanComputePipeline::new(8, default_cascade_slots()).unwrap();
    assert_eq!(dispatch_for(Stage::UpdateSpectrum, &small).groups_x, 1);
    assert_eq!(dispatch_for(Stage::VerticalFft, &small).groups_y, 8);
    let large = OceanComputePipeline::new(0x8000_0000, default_cascade_slots()).unwrap();
    assert_eq!(dispatch_for(Stage::UpdateSpectrum, &large).groups_x, 0x1000_0000);
    assert_eq!(dispatch_for(Stage::VerticalFft, &large).groups_y, 0x8000_0000);
}

const USAGE: TextureUsage =
    TextureUsage { copy_dst: true, storage_binding: true, texture_binding: true };

#[test]
fn textures_of_the_reference_configuration() {
    let pipeline = OceanComputePipeline::new(256, default_cascade_slots()).unwrap();
    let textures = setup_textures(&pipeline);
    assert_eq!(
        textures.displacements,
        TextureLayout {
            width: 256,
            height: 256,
            layers: 4,
            format: TextureFormat::Rgba32Float,
            filtered: true,
            fill: 0,
            usage: USAGE
        }
    );
    assert_eq!(
        textures.gradients,
        TextureLayout {
            width: 256,
            height: 256,
            layers: 4,
            format: TextureFormat::Rg32Float,
            filtered: true,
            fill: 0,
            usage: USAGE
        }
    );
    assert_eq!(
        textures.init_spectrum_textures,
        TextureLayout {
            width: 256,
            height: 256,
            layers: 4,
            format: TextureFormat::Rgba32Float,
            filtered: false,
            fill: 0,
            usage: USAGE
        }
    );
    assert_eq!(
        textures.spectrum_textures,
        TextureLayout {
            width: 256,
            height: 256,
            layers: 8,
            format: TextureFormat::Rgba32Float,
            filtered: false,
            fill: 0,
            usage: USAGE
        }
    );
}

#[test]
fn texel_sizes_of_the_formats() {
    assert_eq!(TextureFormat::Rgba32Float.channels(), 4);
    assert_eq!(TextureFormat::Rg32Float.channels(), 2);
    assert_eq!(TextureFormat::Rgba32Float.bytes_per_texel(), 16);
    assert_eq!(TextureFormat::Rg32Float.bytes_per_texel(), 8);
}

#[test]
fn bind_group_layout_binds_each_resource_to_its_slot() {
    let layout = bind_group_layout();
    let resources = [
        Resource::Settings,
        Resource::SpectrumParameters,
        Resource::Displacements,
        Resource::Gradients,
        Resource::InitialSpectrum,
        Resource::TimeSpectrum,
    ];
    assert_eq!(layout.len(), 6);
    for (i, entry) in layout.iter().enumerate() {
        assert_eq!(entry.slot as usize, i);
        assert_eq!(entry.resource, resources[i]);
        assert_eq!(*entry, resources[i].binding());
    }
    assert_eq!(layout[0].kind, BindingKind::Uniform);
    assert_eq!(layout[1].kind, BindingKind::Storage);
    assert_eq!(layout[2].kind, BindingKind::ReadWriteTexture(TextureFormat::Rgba32Float));
    assert_eq!(layout[3].kind, BindingKind::WriteOnlyTexture(TextureFormat::Rg32Float));
    assert_eq!(layout[4].kind, BindingKind::ReadWriteTexture(TextureFormat::Rgba32Float));
    assert_eq!(layout[5].kind, BindingKind::ReadWriteTexture(TextureFormat::Rgba32Float));
}

#[test]
fn only_compute_kernels_see_the_bindings() {
    for entry in bind_group_layout() {
        assert_eq!(entry.visibility, Visibility { vertex: false, fragment: false, compute: true });
        assert!(!entry.dynamic_offset);
    }
}

#[test]
fn buffers_are_sized_by_their_contents_and_textures_are_arrays() {
    let layout = bind_group_layout();
    for entry in &layout[..2] {
        assert_eq!(entry.min_size, MinBindingSize::Contents);
        assert_eq!(entry.dimension, None);
    }
    for entry in &layout[2..] {
        assert_eq!(entry.min_size, MinBindingSize::Absent);
        assert_eq!(entry.dimension, Some(ViewDimension::D2Array));
    }
    assert_eq!(
        layout[3],
        Binding {
            slot: 3,
            resource: Resource::Gradients,
            kind: BindingKind::WriteOnlyTexture(TextureFormat::Rg32Float),
            visibility: Visibility { vertex: false, fragment: false, compute: true },
            dimension: Some(ViewDimension::D2Array),
            min_size: MinBindingSize::Absent,
            dynamic_offset: false,
        }
    );
}

#[test]
fn every_kernel_is_compiled_with_the_one_layout() {
    let shared = bind_group_layout();
    for stage in stage_table() {
        let kernel = kernel_description(stage);
        assert_eq!(kernel.stage, stage);
        assert_eq!(kernel.entry_point, stage.entry_point());
        assert_eq!(kernel.layouts, vec![shared.clone()]);
        assert_eq!(kernel.push_constant_ranges, 0);
    }
}

#[test]
fn every_texture_starts_as_zero_and_is_copied_bound_and_sampled() {
    for n in [8u32, 256] {
        let pipeline = OceanComputePipeline::new(n, default_cascade_slots()).unwrap();
        let textures = setup_textures(&pipeline);
        for layout in [
            textures.displacements,
            textures.gradients,
            textures.init_spectrum_textures,
            textures.spectrum_textures,
        ] {
            assert_eq!(layout.fill, 0);
            assert_eq!(layout.usage, USAGE);
            assert_eq!((layout.width, layout.height), (n, n));
        }
        assert!(textures.displacements.filtered && textures.gradients.filtered);
        assert!(!textures.init_spectrum_textures.filtered && !textures.spectrum_textures.filtered);
    }
}

#[test]
fn each_kernel_reads_what_its_predecessor_wrote() {
    let table = stage_table();
    assert_eq!(stage_input(table[0]), None);
    for pair in table.windows(2) {
        assert_eq!(stage_input(pair[1]), Some(stage_output(pair[0])));
    }
    assert_eq!(stage_output(Stage::AssembleMaps), Resource::Displacements);
}
