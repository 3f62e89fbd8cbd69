use vstd::prelude::*;

verus! {

/// Scalars carried by one feature vector.
pub const FEATURE_DIM: usize = 16;

/// Largest vector count that one request may carry; it fits in the `u8`
/// header of a response.
pub const MAX_VECTORS_PER_REQUEST: usize = 64;

/// Results held inside a response record itself, so that the record fills one
/// 64-byte cache line: 64 bytes less 16 of metadata and 8 of tag, in 4-byte scalars.
pub const INLINE_RESULT_CAPACITY: usize = 10;

/// Bytes of the little-endian `u32` vector count that opens every request.
pub const REQUEST_HEADER_LEN: usize = 4;

} // verus!
