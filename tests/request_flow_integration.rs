use disruptor::{build_single_producer, BusySpin};

use disrust::batch_processor::BatchProcessor;
use disrust::buffer_pool::BufferPool;
use disrust::constants::{FEATURE_DIM, MAX_VECTORS_PER_REQUEST};
use disrust::request_flow::{self, ProcessRequestError};
use disrust::response_flow;
use disrust::response_queue::build_response_channel;
use disrust::ring_types::{InferenceEvent, InferenceResponse};

/// One request: `[u32 num_vectors][f32 * num_vectors * FEATURE_DIM]`.
fn one_request_bytes(num_vectors: u32, feature_values: &[f32]) -> Vec<u8> {
    assert!(num_vectors as usize * FEATURE_DIM <= feature_values.len());
    let mut buf = num_vectors.to_le_bytes().to_vec();
    for val in feature_values.iter().take(num_vectors as usize * FEATURE_DIM) {
        buf.extend_from_slice(&val.to_le_bytes());
    }
    buf
}

fn sum_kernel(v: &[u32]) -> u32 {
    v.iter().map(|&b| f32::from_bits(b)).sum::<f32>().to_bits()
}

#[test]
fn request_flow_processes_one_request_and_consumer_sees_event() {
    const RING_SIZE: usize = 256;
    let builder = build_single_producer(RING_SIZE, InferenceEvent::factory, BusySpin);
    let (mut poller, builder) = builder.new_event_poller();
    let mut producer = builder.build();

    let pool_capacity = RING_SIZE * MAX_VECTORS_PER_REQUEST * FEATURE_DIM;
    let mut pool = BufferPool::new_boxed(pool_capacity);

    let conn_id = 1u16;
    let thread_id = 0u8;
    let mut request_seq = 0u64;

    let num_vectors = 2u32;
    let features: Vec<f32> = (0..num_vectors as usize * FEATURE_DIM).map(|i| i as f32 * 0.5).collect();
    let buf = one_request_bytes(num_vectors, &features);

    let result = request_flow::process_requests_from_buffer(
        &buf,
        &mut producer,
        &mut pool,
        conn_id,
        thread_id,
        &mut request_seq,
    );

    assert!(result.is_ok());
    let (consumed, num_published) = result.unwrap();
    assert_eq!(consumed, buf.len(), "consumed should match request length");
    assert_eq!(num_published, 1);

    match poller.poll() {
        Ok(mut guard) => {
            let events: Vec<InferenceEvent> = (&mut guard).map(|e| *e).collect();
            assert_eq!(events.len(), 1);
            let ev = &events[0];
            assert_eq!(ev.conn_id, conn_id);
            assert_eq!(ev.io_thread_id, thread_id);
            assert_eq!(ev.num_vectors, num_vectors as u8);
            assert_eq!(ev.request_seq, 0);
            for (v, expected_chunk) in features.chunks(FEATURE_DIM).enumerate() {
                let vec_slice: Vec<f32> = ev.vector(&pool, v).iter().map(|&b| f32::from_bits(b)).collect();
                assert_eq!(&vec_slice[..], expected_chunk);
            }
        }
        Err(_) => panic!("expected one event"),
    };
}

#[test]
fn request_flow_processes_multiple_requests_in_one_buffer() {
    const RING_SIZE: usize = 256;
    let builder = build_single_producer(RING_SIZE, InferenceEvent::factory, BusySpin);
    let (mut poller, builder) = builder.new_event_poller();
    let mut producer = builder.build();

    let pool_capacity = RING_SIZE * MAX_VECTORS_PER_REQUEST * FEATURE_DIM;
    let mut pool = BufferPool::new_boxed(pool_capacity);

    let conn_id = 2u16;
    let thread_id = 0u8;
    let mut request_seq = 0u64;

    let r1 = one_request_bytes(1, &[1.0f32; FEATURE_DIM]);
    let r2 = one_request_bytes(1, &[2.0f32; FEATURE_DIM]);
    let mut buf = r1.clone();
    buf.extend_from_slice(&r2);
    let expected_consumed = buf.len();

    let result = request_flow::process_requests_from_buffer(
        &buf,
        &mut producer,
        &mut pool,
        conn_id,
        thread_id,
        &mut request_seq,
    );

    assert!(result.is_ok());
    let (consumed, num_published) = result.unwrap();
    assert_eq!(consumed, expected_consumed);
    assert_eq!(num_published, 2);

    let mut seen = 0u64;
    while let Ok(mut guard) = poller.poll() {
        for ev in &mut guard {
            assert_eq!(ev.conn_id, conn_id);
            assert_eq!(ev.request_seq, seen);
            assert_eq!(ev.num_vectors, 1);
            let v = ev.vector(&pool, 0);
            if seen == 0 {
                assert!(v.iter().all(|&x| f32::from_bits(x) == 1.0));
            } else {
                assert!(v.iter().all(|&x| f32::from_bits(x) == 2.0));
            }
            seen += 1;
        }
        if seen >= 2 {
            break;
        }
    }
    assert_eq!(seen, 2);
}

#[test]
fn request_flow_incomplete_returns_consumed_only() {
    let builder = build_single_producer(256, InferenceEvent::factory, BusySpin);
    let (mut poller, builder) = builder.new_event_poller();
    let mut producer = builder.build();

    let mut pool = BufferPool::new_boxed(256 * FEATURE_DIM);

    let mut request_seq = 0u64;
    let buf = [1u8, 0, 0, 0];

    let result = request_flow::process_requests_from_buffer(&buf, &mut producer, &mut pool, 0, 0, &mut request_seq);

    assert!(result.is_ok());
    let (consumed, num_published) = result.unwrap();
    assert_eq!(consumed, 0);
    assert_eq!(num_published, 0);
    assert!(poller.poll().is_err());
}

#[test]
fn request_flow_parse_error_returns_err() {
    let builder = build_single_producer(256, InferenceEvent::factory, BusySpin);
    let (_poller, builder) = builder.new_event_poller();
    let mut producer = builder.build();

    let mut pool = BufferPool::new_boxed(256 * FEATURE_DIM);

    let mut request_seq = 0u64;
    let buf = [0u8, 0, 0, 0];

    let result = request_flow::process_requests_from_buffer(&buf, &mut producer, &mut pool, 0, 0, &mut request_seq);

    assert!(result.is_err());
    if let Err(ProcessRequestError::Parse(_)) = result {
    } else {
        panic!("expected Parse error");
    }
}

#[test]
fn request_flow_integration_pipeline_request_to_response_end_to_end() {
    const RING_SIZE: usize = 256;
    const RESPONSE_QUEUE_SIZE: usize = 256;
    const RESULT_POOL_CAPACITY: usize = RESPONSE_QUEUE_SIZE * 16;

    let builder = build_single_producer(RING_SIZE, InferenceEvent::factory, BusySpin);
    let (request_poller, builder) = builder.new_event_poller();
    let mut request_producer = builder.build();

    let mut request_pool = BufferPool::new_boxed(RING_SIZE * MAX_VECTORS_PER_REQUEST * FEATURE_DIM);
    let (resp_producer, mut response_poller) = build_response_channel(RESPONSE_QUEUE_SIZE, -1);
    let mut result_pools = vec![*BufferPool::new_boxed(RESULT_POOL_CAPACITY)];

    let mut batch = BatchProcessor::new(request_poller, vec![resp_producer]);

    let conn_id = 1u16;
    let thread_id = 0u8;
    let mut request_seq = 0u64;

    let num_vectors = 2u32;
    let features: Vec<f32> = (0..num_vectors as usize * FEATURE_DIM).map(|i| (i / FEATURE_DIM + 1) as f32).collect();
    let buf = one_request_bytes(num_vectors, &features);

    let result = request_flow::process_requests_from_buffer(
        &buf,
        &mut request_producer,
        &mut request_pool,
        conn_id,
        thread_id,
        &mut request_seq,
    );
    assert!(result.is_ok());
    let (consumed, num_published) = result.unwrap();
    assert_eq!(consumed, buf.len());
    assert_eq!(num_published, 1);

    let cycle = batch.process_one_poll_cycle(&mut request_pool, &mut result_pools, &sum_kernel);
    assert!(cycle.is_ok());
    assert_eq!(cycle.unwrap(), vec![true]);

    match response_poller.poll() {
        Ok(mut guard) => {
            let responses: Vec<InferenceResponse> = (&mut guard).map(|r| *r).collect();
            let wire = response_flow::guard_to_wire_per_conn(&responses, &result_pools[0]);
            assert_eq!(wire.len(), 1);
            let conn_buf = wire.get(&conn_id).expect("conn_id 1");
            assert_eq!(conn_buf.len(), 1 + 2 * 4);
            assert_eq!(conn_buf[0], 2);
            let r0 = f32::from_le_bytes(conn_buf[1..5].try_into().unwrap());
            let r1 = f32::from_le_bytes(conn_buf[5..9].try_into().unwrap());
            assert_eq!(r0, 16.0);
            assert_eq!(r1, 32.0);
        }
        Err(_) => panic!("expected one response batch"),
    };
}

#[test]
fn split_stream_publishes_the_same_events() {
    let builder = build_single_producer(64, InferenceEvent::factory, BusySpin);
    let (mut poller, builder) = builder.new_event_poller();
    let mut producer = builder.build();
    let mut pool = BufferPool::new_boxed(64 * FEATURE_DIM * 4);

    let mut stream = one_request_bytes(1, &[3.0f32; FEATURE_DIM]);
    stream.extend_from_slice(&one_request_bytes(2, &[4.0f32; 2 * FEATURE_DIM]));
    stream.extend_from_slice(&one_request_bytes(1, &[5.0f32; FEATURE_DIM]));

    // Delivered in three chunks, with the unconsumed tail carried over.
    let mut seq = 0u64;
    let mut pending: Vec<u8> = Vec::new();
    let mut total = 0usize;
    for chunk in [&stream[..7], &stream[7..100], &stream[100..]] {
        pending.extend_from_slice(chunk);
        let (consumed, published) =
            request_flow::process_requests_from_buffer(&pending, &mut producer, &mut pool, 9, 0, &mut seq).unwrap();
        pending.drain(..consumed);
        total += published;
    }
    assert_eq!(total, 3);
    assert!(pending.is_empty());
    assert_eq!(seq, 3);

    let mut events: Vec<InferenceEvent> = Vec::new();
    while let Ok(mut guard) = poller.poll() {
        events.extend((&mut guard).map(|e| *e));
    }
    let counts: Vec<u8> = events.iter().map(|e| e.num_vectors).collect();
    assert_eq!(counts, vec![1, 2, 1]);
    let seqs: Vec<u64> = events.iter().map(|e| e.request_seq).collect();
    assert_eq!(seqs, vec![0, 1, 2]);
    assert!(events[1].vector(&pool, 1).iter().all(|&x| f32::from_bits(x) == 4.0));
    assert!(events[2].vector(&pool, 0).iter().all(|&x| f32::from_bits(x) == 5.0));
}

#[test]
fn request_flow_alloc_error_when_pool_full() {
    let builder = build_single_producer(16, InferenceEvent::factory, BusySpin);
    let (_poller, builder) = builder.new_event_poller();
    let mut producer = builder.build();
    let mut pool = BufferPool::new_boxed(FEATURE_DIM);
    let mut seq = 0u64;
    let mut buf = one_request_bytes(1, &[1.0f32; FEATURE_DIM]);
    buf.extend_from_slice(&one_request_bytes(1, &[1.0f32; FEATURE_DIM]));
    let result = request_flow::process_requests_from_buffer(&buf, &mut producer, &mut pool, 0, 0, &mut seq);
    assert!(matches!(result, Err(ProcessRequestError::Alloc(_))));
    // the first request was published, the second was numbered before it failed
    assert_eq!(seq, 2);
}
