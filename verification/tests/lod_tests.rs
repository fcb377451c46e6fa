use ocean_spectrum::lod::{
    lod_buffer_bytes, subdivision_buffer_len, LodBufferBytes, INDEX_OUT_BUFFER_SIZE,
    VERTEX_OUT_BUFFER_SIZE,
};

#[test]
fn output_buffers_have_their_fixed_lengths() {
    assert_eq!(VERTEX_OUT_BUFFER_SIZE, 2u32.pow(16) * 3);
    assert_eq!(INDEX_OUT_BUFFER_SIZE, 2u32.pow(16));
}

#[test]
fn three_keys_for_each_level_and_one_more() {
    assert_eq!(subdivision_buffer_len(0), Some(1));
    assert_eq!(subdivision_buffer_len(1), Some(4));
    assert_eq!(subdivision_buffer_len(10), Some(31));
    assert_eq!(subdivision_buffer_len(1_431_655_764), Some(u32::MAX - 2));
}

#[test]
fn key_count_beyond_32_bits_is_refused() {
    assert_eq!(subdivision_buffer_len(1_431_655_765), None);
    assert_eq!(subdivision_buffer_len(u32::MAX), None);
}

#[test]
fn buffers_take_four_bytes_for_each_word() {
    assert_eq!(
        lod_buffer_bytes(31),
        LodBufferBytes { subdivision_keys: 124, vertices_out: 786_432, indices_out: 262_144 }
    );
    assert_eq!(lod_buffer_bytes(0).subdivision_keys, 0);
    assert_eq!(lod_buffer_bytes(u32::MAX).subdivision_keys, 4 * (u32::MAX as u64));
}
