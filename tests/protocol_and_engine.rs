use disruptor::{build_single_producer, BusySpin};

use disrust::buffer_pool::BufferPool;
use disrust::config::READ_BUF_SIZE;
use disrust::constants::{FEATURE_DIM, MAX_VECTORS_PER_REQUEST};
use disrust::io_thread::{decode_user_data, encode_user_data, ConnAction, Connection, OP_READ, OP_WRITE};
use disrust::metrics;
use disrust::protocol::{copy_features, try_parse_request, write_response, ParseResult};
use disrust::ring_types::{InferenceEvent, InferenceResponse};

fn encode_request(num_vectors: u32, value: f32) -> Vec<u8> {
    let mut buf = num_vectors.to_le_bytes().to_vec();
    for _ in 0..num_vectors as usize * FEATURE_DIM {
        buf.extend_from_slice(&value.to_le_bytes());
    }
    buf
}

#[test]
fn parse_round_trip_for_every_count() {
    for v in 1..=MAX_VECTORS_PER_REQUEST as u32 {
        let buf = encode_request(v, 1.5);
        match try_parse_request(&buf) {
            ParseResult::Complete { num_vectors, bytes_consumed } => {
                assert_eq!(num_vectors, v);
                assert_eq!(bytes_consumed, 4 + 4 * FEATURE_DIM * v as usize);
            }
            _ => panic!("expected a complete request"),
        }
    }
}

#[test]
fn parse_incomplete_and_errors() {
    assert!(matches!(try_parse_request(&[]), ParseResult::Incomplete(4)));
    assert!(matches!(try_parse_request(&[1, 0]), ParseResult::Incomplete(2)));
    assert!(matches!(try_parse_request(&[1, 0, 0, 0]), ParseResult::Incomplete(64)));
    assert!(matches!(try_parse_request(&[0, 0, 0, 0]), ParseResult::Error(_)));
    assert!(matches!(try_parse_request(&[65, 0, 0, 0]), ParseResult::Error(_)));
    assert!(matches!(try_parse_request(&[1, 0, 0, 1]), ParseResult::Error(_)));
}

#[test]
fn copy_features_reads_little_endian_words() {
    let src = [0x00, 0x00, 0x80, 0x3f, 0x01, 0x02, 0x03, 0x04];
    let mut dst = vec![7u32; FEATURE_DIM + 1];
    let mut long_src = src.to_vec();
    long_src.resize(4 * FEATURE_DIM, 0);
    copy_features(&long_src, &mut dst, 1);
    assert_eq!(f32::from_bits(dst[0]), 1.0);
    assert_eq!(dst[1], 0x0403_0201);
    assert_eq!(dst[2], 0);
    assert_eq!(dst[FEATURE_DIM], 7);
}

#[test]
fn write_response_emits_count_byte_and_words() {
    let mut buf = vec![0xaa];
    write_response(&mut buf, 2, &[16.0f32.to_bits(), 32.0f32.to_bits(), 99]);
    assert_eq!(buf, vec![0xaa, 0x02, 0x00, 0x00, 0x80, 0x41, 0x00, 0x00, 0x00, 0x42]);
}

#[test]
fn user_data_round_trip() {
    let ud = encode_user_data(OP_WRITE, 513);
    assert_eq!(ud, (2u64 << 32) | 513);
    assert_eq!(decode_user_data(ud), (OP_WRITE, 513));
    assert_eq!(decode_user_data(encode_user_data(OP_READ, 0xffff)), (OP_READ, 0xffff));
}

#[test]
fn connection_reads_publish_and_keep_the_tail() {
    let builder = build_single_producer(16, InferenceEvent::factory, BusySpin);
    let (mut poller, builder) = builder.new_event_poller();
    let mut producer = builder.build();
    let mut pool = BufferPool::new_boxed(16 * FEATURE_DIM);
    let mut conn = Connection::new(5);
    assert!(conn.begin_read());
    assert!(!conn.begin_read());

    let mut stream = encode_request(1, 2.0);
    stream.extend_from_slice(&encode_request(1, 3.0)[..10]);
    let (off, room) = conn.read_buf_tail();
    assert_eq!((off, room as usize), (0, READ_BUF_SIZE));
    conn.read_buf[..stream.len()].copy_from_slice(&stream);
    let action = conn.handle_read(stream.len() as i32, &mut producer, &mut pool, 4, 1);
    assert_eq!(action, ConnAction::Keep);
    assert!(!conn.read_inflight);
    assert_eq!(conn.read_len, 10);
    assert_eq!(&conn.read_buf[..10], &encode_request(1, 3.0)[..10]);
    assert_eq!(conn.next_request_seq, 1);
    let events: Vec<InferenceEvent> = match poller.poll() {
        Ok(mut guard) => (&mut guard).map(|e| *e).collect(),
        Err(_) => panic!("expected an event"),
    };
    assert_eq!(events.len(), 1);
    assert_eq!((events[0].conn_id, events[0].io_thread_id), (4, 1));

    assert_eq!(conn.handle_read(0, &mut producer, &mut pool, 4, 1), ConnAction::Close);
}

#[test]
fn connection_closes_on_malformed_header() {
    let builder = build_single_producer(16, InferenceEvent::factory, BusySpin);
    let (_poller, builder) = builder.new_event_poller();
    let mut producer = builder.build();
    let mut pool = BufferPool::new_boxed(16 * FEATURE_DIM);
    let mut conn = Connection::new(5);
    conn.read_buf[..4].copy_from_slice(&[0, 0, 0, 0]);
    assert_eq!(conn.handle_read(4, &mut producer, &mut pool, 0, 0), ConnAction::Close);
}

#[test]
fn connection_write_scratch_batches_responses() {
    let pool = BufferPool::new_boxed(4);
    let mut conn = Connection::new(3);
    let a = InferenceResponse::with_results(3, 0, &[1], None).unwrap();
    let b = InferenceResponse::with_results(3, 1, &[2, 3], None).unwrap();
    assert!(conn.queue_response(&a, &pool));
    assert!(conn.begin_write());
    assert!(!conn.begin_write());
    assert_eq!(conn.inflight_segments, vec![(0, 0, 4)]);
    // queued behind the write in flight
    assert!(!conn.queue_response(&b, &pool));
    assert_eq!(conn.write_headers, vec![2]);
    assert_eq!(conn.write_payloads, vec![2, 0, 0, 0, 3, 0, 0, 0]);
    assert_eq!(conn.handle_write(5), ConnAction::Keep);
    assert!(conn.inflight_segments.is_empty());
    assert!(conn.begin_write());
    assert_eq!(conn.inflight_headers, vec![2]);
    assert_eq!(conn.inflight_segments, vec![(0, 0, 8)]);
    assert_eq!(conn.handle_write(-1), ConnAction::Close);
}

#[test]
fn metrics_counters_and_gauges() {
    let mut m = metrics::new_metrics();
    metrics::inc_requests_published(&mut m);
    metrics::inc_requests_published(&mut m);
    metrics::inc_req_occ(&mut m);
    metrics::inc_req_occ(&mut m);
    metrics::dec_req_occ(&mut m);
    metrics::update_pool_in_use(&mut m, 40);
    metrics::update_pool_in_use(&mut m, 10);
    metrics::inc_resp_occ(&mut m);
    metrics::dec_resp_occ(&mut m);
    metrics::inc_poll_events(&mut m);
    metrics::inc_poll_no_events(&mut m);
    metrics::inc_req_ring_full(&mut m);
    metrics::inc_resp_ring_full(&mut m);
    metrics::inc_pool_exhausted(&mut m);
    metrics::inc_pool_too_large(&mut m);
    metrics::inc_responses_sent(&mut m);
    let s = metrics::snapshot(&m);
    assert_eq!(s.requests_published, 2);
    assert_eq!((s.req_occ, s.req_max_occ), (1, 2));
    assert_eq!((s.resp_occ, s.resp_max_occ), (0, 1));
    assert_eq!(s.pool_max_in_use, 40);
    let mut later = s;
    later.requests_published = 7;
    let d = metrics::snapshot_delta(&later, &s);
    assert_eq!(d.requests_published, 5);
    assert_eq!(d.poll_events, 0);
    assert_eq!(metrics::snapshot_delta(&s, &later).requests_published, 0);
}
