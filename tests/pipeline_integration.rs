use disruptor::{build_single_producer, BusySpin};

use disrust::batch_processor::BatchProcessor;
use disrust::buffer_pool::BufferPool;
use disrust::constants::{FEATURE_DIM, MAX_VECTORS_PER_REQUEST};
use disrust::request_flow;
use disrust::response_flow;
use disrust::response_queue::build_response_channel;
use disrust::ring_types::{InferenceEvent, InferenceResponse};
use disrust::rings::Polling;

fn request_bytes_of(num_vectors: u32, feature_values: &[f32]) -> Vec<u8> {
    assert!(num_vectors as usize * FEATURE_DIM <= feature_values.len());
    let mut buf = num_vectors.to_le_bytes().to_vec();
    for val in feature_values.iter().take(num_vectors as usize * FEATURE_DIM) {
        buf.extend_from_slice(&val.to_le_bytes());
    }
    buf
}

fn vector_sum(v: &[u32]) -> u32 {
    v.iter().map(|&b| f32::from_bits(b)).sum::<f32>().to_bits()
}

fn drain(poller: &mut disrust::rings::RespPoller) -> Vec<InferenceResponse> {
    let mut out = Vec::new();
    while let Ok(mut guard) = poller.poll() {
        out.extend((&mut guard).map(|r| *r));
    }
    out
}

#[test]
fn pipeline_integration_pipeline_request_to_response_end_to_end() {
    const RING_SIZE: usize = 256;
    const RESPONSE_QUEUE_SIZE: usize = 256;
    const RESULT_POOL_CAPACITY: usize = RESPONSE_QUEUE_SIZE * 16;

    let builder = build_single_producer(RING_SIZE, InferenceEvent::factory, BusySpin);
    let (request_poller, builder) = builder.new_event_poller();
    let mut request_producer = builder.build();
    let mut request_pool = BufferPool::new_boxed(RING_SIZE * MAX_VECTORS_PER_REQUEST * FEATURE_DIM);
    let (resp_producer, mut response_poller) = build_response_channel(RESPONSE_QUEUE_SIZE, -1);
    let mut result_pools = vec![*BufferPool::new_boxed(RESULT_POOL_CAPACITY)];

    let mut batch = BatchProcessor::new(request_poller, vec![resp_producer]);

    let conn_id = 1u16;
    let thread_id = 0u8;
    let mut request_seq = 0u64;
    let num_vectors = 2u32;
    let features: Vec<f32> = (0..num_vectors as usize * FEATURE_DIM).map(|i| (i / FEATURE_DIM + 1) as f32).collect();
    let buf = request_bytes_of(num_vectors, &features);

    let result = request_flow::process_requests_from_buffer(
        &buf,
        &mut request_producer,
        &mut request_pool,
        conn_id,
        thread_id,
        &mut request_seq,
    );
    assert!(result.is_ok());
    let (consumed, num_published) = result.unwrap();
    assert_eq!(consumed, buf.len());
    assert_eq!(num_published, 1);

    let cycle = batch.process_one_poll_cycle(&mut request_pool, &mut result_pools, &vector_sum);
    assert!(cycle.is_ok());

    let responses = drain(&mut response_poller);
    assert!(!responses.is_empty(), "expected one response batch");
    let wire = response_flow::guard_to_wire_per_conn(&responses, &result_pools[0]);
    assert_eq!(wire.len(), 1);
    let conn_buf = wire.get(&conn_id).expect("conn_id 1");
    assert_eq!(conn_buf.len(), 1 + 2 * 4);
    assert_eq!(conn_buf[0], 2);
    let r0 = f32::from_le_bytes(conn_buf[1..5].try_into().unwrap());
    let r1 = f32::from_le_bytes(conn_buf[5..9].try_into().unwrap());
    assert_eq!(r0, 16.0);
    assert_eq!(r1, 32.0);
    assert_eq!(conn_buf, &vec![0x02, 0x00, 0x00, 0x80, 0x41, 0x00, 0x00, 0x00, 0x42]);
}

#[test]
fn pipeline_multiple_requests_same_conn() {
    const RING_SIZE: usize = 256;
    const RESPONSE_QUEUE_SIZE: usize = 256;
    const RESULT_POOL_CAPACITY: usize = RESPONSE_QUEUE_SIZE * 16;

    let builder = build_single_producer(RING_SIZE, InferenceEvent::factory, BusySpin);
    let (request_poller, builder) = builder.new_event_poller();
    let mut request_producer = builder.build();
    let mut request_pool = BufferPool::new_boxed(RING_SIZE * MAX_VECTORS_PER_REQUEST * FEATURE_DIM);
    let (resp_producer, mut response_poller) = build_response_channel(RESPONSE_QUEUE_SIZE, -1);
    let mut result_pools = vec![*BufferPool::new_boxed(RESULT_POOL_CAPACITY)];

    let mut batch = BatchProcessor::new(request_poller, vec![resp_producer]);

    let conn_id = 2u16;
    let thread_id = 0u8;
    let mut request_seq = 0u64;
    let r1 = request_bytes_of(1, &[1.0f32; FEATURE_DIM]);
    let r2 = request_bytes_of(1, &[2.0f32; FEATURE_DIM]);
    let mut buf = r1;
    buf.extend_from_slice(&r2);

    let result = request_flow::process_requests_from_buffer(
        &buf,
        &mut request_producer,
        &mut request_pool,
        conn_id,
        thread_id,
        &mut request_seq,
    );
    assert!(result.is_ok());
    let (consumed, num_published) = result.unwrap();
    assert_eq!(consumed, buf.len());
    assert_eq!(num_published, 2);

    let cycle = batch.process_one_poll_cycle(&mut request_pool, &mut result_pools, &vector_sum);
    assert!(cycle.is_ok());

    let responses = drain(&mut response_poller);
    assert!(!responses.is_empty(), "expected responses");
    let wire = response_flow::guard_to_wire_per_conn(&responses, &result_pools[0]);
    assert_eq!(wire.len(), 1);
    let conn_buf = wire.get(&conn_id).unwrap();
    assert_eq!(conn_buf.len(), 10);
    assert_eq!(conn_buf[0], 1);
    assert_eq!(f32::from_le_bytes(conn_buf[1..5].try_into().unwrap()), 16.0);
    assert_eq!(conn_buf[5], 1);
    assert_eq!(f32::from_le_bytes(conn_buf[6..10].try_into().unwrap()), 32.0);
}

#[test]
fn pipeline_two_connections_interleaved() {
    let builder = build_single_producer(64, InferenceEvent::factory, BusySpin);
    let (request_poller, builder) = builder.new_event_poller();
    let mut request_producer = builder.build();
    let mut request_pool = BufferPool::new_boxed(64 * MAX_VECTORS_PER_REQUEST * FEATURE_DIM);
    let (resp_producer, mut response_poller) = build_response_channel(64, -1);
    let mut result_pools = vec![*BufferPool::new_boxed(1024)];
    let mut batch = BatchProcessor::new(request_poller, vec![resp_producer]);

    let mut seq_a = 0u64;
    let mut seq_b = 0u64;
    let a = request_bytes_of(1, &[10.0f32; FEATURE_DIM]);
    let mut b_features = vec![20.0f32; FEATURE_DIM];
    b_features.extend_from_slice(&[21.0f32; FEATURE_DIM]);
    let b = request_bytes_of(2, &b_features);
    request_flow::process_requests_from_buffer(&a, &mut request_producer, &mut request_pool, 1, 0, &mut seq_a).unwrap();
    request_flow::process_requests_from_buffer(&b, &mut request_producer, &mut request_pool, 2, 0, &mut seq_b).unwrap();

    assert_eq!(batch.process_one_poll_cycle(&mut request_pool, &mut result_pools, &vector_sum), Ok(vec![true]));
    let responses = drain(&mut response_poller);
    let wire = response_flow::guard_to_wire_per_conn(&responses, &result_pools[0]);
    assert_eq!(wire.len(), 2);
    let mut expected_a = vec![1u8];
    expected_a.extend_from_slice(&160.0f32.to_le_bytes());
    let mut expected_b = vec![2u8];
    expected_b.extend_from_slice(&320.0f32.to_le_bytes());
    expected_b.extend_from_slice(&336.0f32.to_le_bytes());
    assert_eq!(wire.get(&1).unwrap(), &expected_a);
    assert_eq!(wire.get(&2).unwrap(), &expected_b);
}

#[test]
fn batch_releases_request_features_and_reports_no_events() {
    let builder = build_single_producer(16, InferenceEvent::factory, BusySpin);
    let (request_poller, builder) = builder.new_event_poller();
    let mut request_producer = builder.build();
    let mut request_pool = BufferPool::new_boxed(16 * FEATURE_DIM);
    let (resp_producer, _response_poller) = build_response_channel(16, -1);
    let mut result_pools = vec![*BufferPool::new_boxed(1024)];
    let mut batch = BatchProcessor::new(request_poller, vec![resp_producer]);

    assert_eq!(batch.process_one_poll_cycle(&mut request_pool, &mut result_pools, &vector_sum), Err(Polling::NoEvents));

    let mut seq = 0u64;
    let buf = request_bytes_of(1, &[1.0f32; FEATURE_DIM]);
    request_flow::process_requests_from_buffer(&buf, &mut request_producer, &mut request_pool, 3, 0, &mut seq).unwrap();
    assert_eq!(request_pool.utilization(), (FEATURE_DIM, 16 * FEATURE_DIM));
    assert_eq!(batch.process_one_poll_cycle(&mut request_pool, &mut result_pools, &vector_sum), Ok(vec![true]));
    assert_eq!(request_pool.utilization(), (0, 16 * FEATURE_DIM));
}

#[test]
fn batch_large_response_goes_to_result_pool_and_waits_when_full() {
    let builder = build_single_producer(16, InferenceEvent::factory, BusySpin);
    let (request_poller, builder) = builder.new_event_poller();
    let mut request_producer = builder.build();
    let mut request_pool = BufferPool::new_boxed(16 * MAX_VECTORS_PER_REQUEST * FEATURE_DIM);
    let (resp_producer, mut response_poller) = build_response_channel(16, -1);
    // room for one response of 12 results, not two
    let mut result_pools = vec![*BufferPool::new_boxed(20)];
    let mut batch = BatchProcessor::new(request_poller, vec![resp_producer]);

    let mut seq = 0u64;
    let mut buf = request_bytes_of(12, &[0.5f32; 12 * FEATURE_DIM]);
    buf.extend_from_slice(&request_bytes_of(12, &[0.25f32; 12 * FEATURE_DIM]));
    request_flow::process_requests_from_buffer(&buf, &mut request_producer, &mut request_pool, 4, 0, &mut seq).unwrap();

    assert_eq!(batch.process_one_poll_cycle(&mut request_pool, &mut result_pools, &vector_sum), Ok(vec![true]));
    assert_eq!(batch.pending.len(), 1);
    let first = drain(&mut response_poller);
    assert_eq!(first.len(), 1);
    let wire = response_flow::guard_to_wire_per_conn(&first, &result_pools[0]);
    let bytes = wire.get(&4).unwrap();
    assert_eq!(bytes.len(), 1 + 12 * 4);
    assert_eq!(bytes[0], 12);
    assert_eq!(f32::from_le_bytes(bytes[1..5].try_into().unwrap()), 8.0);

    // the IO engine gives the range back; the pending event is answered next
    disrust::io_thread::reclaim_response(&first[0], &mut result_pools[0]);
    assert_eq!(batch.process_one_poll_cycle(&mut request_pool, &mut result_pools, &vector_sum), Ok(vec![true]));
    assert!(batch.pending.is_empty());
    let second = drain(&mut response_poller);
    assert_eq!(second.len(), 1);
    assert_eq!(second[0].request_seq, 1);
    let results: Vec<f32> = second[0].results_slice(&result_pools[0]).iter().map(|&b| f32::from_bits(b)).collect();
    assert_eq!(results, vec![4.0f32; 12]);
}
