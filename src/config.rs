//! Sizing of the server's rings, arenas and buffers.

use vstd::prelude::*;

use crate::constants::{FEATURE_DIM, MAX_VECTORS_PER_REQUEST};

verus! {

/// `io_thread_id` is a `u8` in request events: no more IO engines than this.
pub const MAX_IO_THREADS: usize = 256;

/// Capacity of the request ring (a power of two).
pub const DISRUPTOR_SIZE: usize = 65536;

/// Capacity of each response ring; at least the request ring's, so that
/// answering a full request ring cannot deadlock.
pub const RESPONSE_QUEUE_SIZE: usize = DISRUPTOR_SIZE;

/// Bytes of each connection's read buffer; more than the largest request.
pub const READ_BUF_SIZE: usize = 65536;

/// Connections per IO engine; a connection key fits in a `u16`.
pub const SLAB_CAPACITY: usize = 4096;

/// Scalars of the request arena: every ring slot at the largest request.
pub const BUFFER_POOL_CAPACITY: usize = DISRUPTOR_SIZE * MAX_VECTORS_PER_REQUEST * FEATURE_DIM;

/// Scalars of each response arena, for responses too large to be inline.
pub const RESULT_POOL_CAPACITY: usize = RESPONSE_QUEUE_SIZE * 16;

} // verus!
