//! Verified core of a pipelined inference server: the ring arena, the wire
//! codec, the request and response flows, the batch step and the per-connection
//! state of the IO engine.

pub mod config;
pub mod constants;
pub mod protocol;
pub mod buffer_pool;
pub mod ring_types;
pub mod rings;
pub mod response_queue;
pub mod request_flow;
pub mod batch_processor;
pub mod response_flow;
pub mod io_thread;
pub mod metrics;
