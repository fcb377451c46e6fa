//! The sizes of the buffers that a mesh with dynamic level of detail works
//! in: its subdivision keys and the vertices and indices it puts out.

use vstd::prelude::*;

verus! {

/// Number of 32-bit words in the buffer of vertices that are put out.
pub const VERTEX_OUT_BUFFER_SIZE: u32 = 196608;

/// Number of 32-bit words in the buffer of indices that are put out.
pub const INDEX_OUT_BUFFER_SIZE: u32 = 65536;

/// Size of one word of a buffer in bytes.
pub const WORD_BYTES: u64 = 4;

/// Number of subdivision keys of a mesh that is subdivided at most
/// `max_level` times: three for each level and one more.
pub open spec fn subdivision_keys(max_level: nat) -> nat {
    3 * max_level + 1
}

/// Number of subdivision keys of a mesh that is subdivided at most
/// `max_level` times, when a 32-bit count can hold it.
pub fn subdivision_buffer_len(max_level: u32) -> (len: Option<u32>)
    ensures
        len == if subdivision_keys(max_level as nat) <= u32::MAX {
            Some(subdivision_keys(max_level as nat) as u32)
        } else {
            None
        },
{
    if max_level > (u32::MAX - 1) / 3 {
        None
    } else {
        Some(3 * max_level + 1)
    }
}

/// The sizes in bytes of the three buffers that are made for a mesh.
#[derive(Clone, Copy, Debug, PartialEq, Eq, Structural)]
pub struct LodBufferBytes {
    pub subdivision_keys: u64,
    pub vertices_out: u64,
    pub indices_out: u64,
}

/// Size in bytes of a buffer of `words` words.
pub open spec fn bytes_of(words: nat) -> nat {
    words * (WORD_BYTES as nat)
}

/// The sizes in bytes of the buffers of a mesh with `keys` subdivision keys:
/// one word for each key, and the two output buffers at their fixed lengths.
pub fn lod_buffer_bytes(keys: u32) -> (bytes: LodBufferBytes)
    ensures
        bytes.subdivision_keys == bytes_of(keys as nat),
        bytes.vertices_out == bytes_of(VERTEX_OUT_BUFFER_SIZE as nat),
        bytes.indices_out == bytes_of(INDEX_OUT_BUFFER_SIZE as nat),
{
    LodBufferBytes {
        subdivision_keys: keys as u64 * WORD_BYTES,
        vertices_out: VERTEX_OUT_BUFFER_SIZE as u64 * WORD_BYTES,
        indices_out: INDEX_OUT_BUFFER_SIZE as u64 * WORD_BYTES,
    }
}

/// The output buffers hold `3 * 2^16` and `2^16` words.
pub proof fn lemma_output_buffer_lengths()
    ensures
        VERTEX_OUT_BUFFER_SIZE == 3 * 0x1_0000,
        INDEX_OUT_BUFFER_SIZE == 0x1_0000,
        bytes_of(VERTEX_OUT_BUFFER_SIZE as nat) == 786432,
        bytes_of(INDEX_OUT_BUFFER_SIZE as nat) == 262144,
{
}

} // verus!
