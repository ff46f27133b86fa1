//! Chunked-decryption planner.
//!
//! Ciphertext is processed in fixed-size chunks of 256 KiB of payload plus a
//! 16-byte authentication tag. Given the ciphertext file size, the planner
//! computes the index of the last chunk, which together with a start index of
//! 0 parameterizes the external decryption capability. A ciphertext smaller
//! than one whole chunk still occupies chunk 0.

use vstd::prelude::*;

verus! {

/// Bytes of plaintext payload carried by one chunk.
pub const CHUNK_PAYLOAD_SIZE: u64 = 262144;

/// Bytes of authentication tag appended to each chunk.
pub const CHUNK_TAG_SIZE: u64 = 16;

/// Total on-disk size of one chunk: payload plus tag.
pub const CHUNK_TOTAL_SIZE: u64 = CHUNK_PAYLOAD_SIZE + CHUNK_TAG_SIZE;

/// Index of the last chunk of a ciphertext of `ciphertext_size` bytes:
/// the number of whole chunks that fit, rounding down.
pub fn last_chunk_index(ciphertext_size: u64) -> (r: u64)
    ensures
        r == ciphertext_size / CHUNK_TOTAL_SIZE,
{
    ciphertext_size / CHUNK_TOTAL_SIZE
}

} // verus!
