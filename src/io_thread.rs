//! Per-connection state of the IO engine and the decisions taken on each
//! completion; the event loop that submits the operations lives outside the
//! library.

use vstd::prelude::*;

use crate::buffer_pool::BufferPool;
use crate::config::READ_BUF_SIZE;
use crate::protocol::{lemma_words_le_push, response_bytes, u32_to_le, words_le};
use crate::constants::FEATURE_DIM;
use crate::request_flow::{
    event_for, feature_lens, lemma_stream_consumed_bounded, write_after, process_requests_from_buffer, stream_consumed, stream_fails,
    stream_requests,
};
use crate::ring_types::{InferenceResponse, ResultStorage};
use crate::rings::{delivered_responses, poll_responses, published_requests, Polling, RequestProducer, RespPoller};

verus! {

/// Completion kinds, in the high half of a completion's `user_data`.
pub const OP_ACCEPT: u64 = 0;
pub const OP_READ: u64 = 1;
pub const OP_WRITE: u64 = 2;
pub const OP_EVENTFD: u64 = 3;

/// Tags an operation with its kind and connection key: `(op << 32) | key`.
pub fn encode_user_data(op: u64, key: u16) -> (r: u64)
    requires
        op < 0x1_0000_0000,
    ensures
        r == op * 0x1_0000_0000 + key,
{
    let r = (op << 32u64) | key as u64;
    assert(r == op * 0x1_0000_0000 + key) by (bit_vector)
        requires
            r == (op << 32u64) | key as u64,
            op < 0x1_0000_0000;
    r
}

/// Splits a `user_data` into its kind and connection key.
pub fn decode_user_data(user_data: u64) -> (r: (u64, u16))
    ensures
        r.0 == user_data / 0x1_0000_0000,
        r.1 == user_data % 0x1_0000,
{
    let op = user_data >> 32u64;
    let key = user_data as u16;
    assert(op == user_data / 0x1_0000_0000) by (bit_vector)
        requires op == user_data >> 32u64;
    assert(key == user_data % 0x1_0000) by (bit_vector)
        requires key == user_data as u16;
    (op, key)
}

/// One response in a write scratch: where its header byte is, where its
/// payload starts and how long the payload is.
pub type Segment = (usize, usize, usize);

/// The bytes a vectored write of `segments` sends: for each segment in order,
/// its header byte and then its payload.
pub open spec fn segments_wire(headers: Seq<u8>, payloads: Seq<u8>, segments: Seq<Segment>) -> Seq<u8>
    decreases segments.len(),
{
    if segments.len() == 0 {
        Seq::empty()
    } else {
        let s = segments.last();
        segments_wire(headers, payloads, segments.drop_last()) + seq![headers[s.0 as int]] + payloads.subrange(
            s.1 as int,
            s.1 + s.2,
        )
    }
}

/// Whether every segment points inside its scratch buffers.
pub open spec fn segments_within(headers: Seq<u8>, payloads: Seq<u8>, segments: Seq<Segment>) -> bool {
    forall|i: int|
        0 <= i < segments.len() ==> (#[trigger] segments[i]).0 < headers.len() && segments[i].1 + segments[i].2
            <= payloads.len()
}

/// Segments inside two buffers send the same bytes once the buffers grow.
pub proof fn lemma_segments_wire_extend(
    headers: Seq<u8>,
    payloads: Seq<u8>,
    h2: Seq<u8>,
    p2: Seq<u8>,
    segments: Seq<Segment>,
)
    requires
        segments_within(headers, payloads, segments),
        h2.len() >= headers.len(),
        h2.subrange(0, headers.len() as int) == headers,
        p2.len() >= payloads.len(),
        p2.subrange(0, payloads.len() as int) == payloads,
    ensures
        segments_wire(h2, p2, segments) == segments_wire(headers, payloads, segments),
    decreases segments.len(),
{
    if segments.len() > 0 {
        let s = segments.last();
        assert(segments[segments.len() - 1] == s);
        assert(h2[s.0 as int] == h2.subrange(0, headers.len() as int)[s.0 as int]);
        assert(p2.subrange(s.1 as int, s.1 + s.2) =~= payloads.subrange(s.1 as int, s.1 + s.2)) by {
            assert forall|k: int| 0 <= k < s.2 implies #[trigger] p2.subrange(s.1 as int, s.1 + s.2)[k] == payloads.subrange(
                s.1 as int,
                s.1 + s.2,
            )[k] by {
                assert(p2[s.1 + k] == p2.subrange(0, payloads.len() as int)[s.1 + k]);
            }
        }
        assert(segments_within(headers, payloads, segments.drop_last())) by {
            assert forall|i: int| 0 <= i < segments.drop_last().len() implies (#[trigger] segments.drop_last()[i]).0
                < headers.len() && segments.drop_last()[i].1 + segments.drop_last()[i].2 <= payloads.len() by {
                assert(segments.drop_last()[i] == segments[i]);
            }
        }
        lemma_segments_wire_extend(headers, payloads, h2, p2, segments.drop_last());
    }
}

/// State of one client connection on its IO engine.
pub struct Connection {
    pub fd: i32,
    /// Bytes read and not yet consumed are `read_buf[..read_len]`.
    pub read_buf: Vec<u8>,
    pub read_len: usize,
    /// Responses waiting for the next write.
    pub write_headers: Vec<u8>,
    pub write_payloads: Vec<u8>,
    pub write_segments: Vec<Segment>,
    /// Responses of the write in flight; untouched until it completes, so
    /// that the kernel may read them in place.
    pub inflight_headers: Vec<u8>,
    pub inflight_payloads: Vec<u8>,
    pub inflight_segments: Vec<Segment>,
    pub next_request_seq: u64,
    pub read_inflight: bool,
    pub write_inflight: bool,
}

/// Whether a connection should stay open after a completion.
#[derive(Debug, Clone, Copy, PartialEq, Eq)]
pub enum ConnAction {
    Keep,
    Close,
}

impl Connection {
    /// The connection's internal invariant.
    pub open spec fn wf(&self) -> bool {
        &&& self.read_buf@.len() == READ_BUF_SIZE
        &&& self.read_len <= READ_BUF_SIZE
        &&& segments_within(self.write_headers@, self.write_payloads@, self.write_segments@)
        &&& segments_within(self.inflight_headers@, self.inflight_payloads@, self.inflight_segments@)
        &&& !self.write_inflight ==> self.inflight_segments@.len() == 0
    }

    /// The bytes waiting for the next write.
    pub open spec fn queued_wire(&self) -> Seq<u8> {
        segments_wire(self.write_headers@, self.write_payloads@, self.write_segments@)
    }

    /// The bytes of the write in flight.
    pub open spec fn inflight_wire(&self) -> Seq<u8> {
        segments_wire(self.inflight_headers@, self.inflight_payloads@, self.inflight_segments@)
    }

    /// The bytes read and not yet consumed.
    pub open spec fn unread(&self) -> Seq<u8> {
        self.read_buf@.subrange(0, self.read_len as int)
    }

    /// A new connection on descriptor `fd`: nothing read, nothing to write.
    pub fn new(fd: i32) -> (r: Self)
        ensures
            r.wf(),
            r.fd == fd,
            r.read_len == 0,
            r.next_request_seq == 0,
            !r.read_inflight,
            !r.write_inflight,
            r.queued_wire() == Seq::<u8>::empty(),
            r.inflight_wire() == Seq::<u8>::empty(),
    {
        Connection {
            fd,
            read_buf: vec![0u8; READ_BUF_SIZE],
            read_len: 0,
            write_headers: Vec::new(),
            write_payloads: Vec::new(),
            write_segments: Vec::new(),
            inflight_headers: Vec::new(),
            inflight_payloads: Vec::new(),
            inflight_segments: Vec::new(),
            next_request_seq: 0,
            read_inflight: false,
            write_inflight: false,
        }
    }

    /// Offset and length of the unfilled tail of the read buffer.
    pub fn read_buf_tail(&self) -> (r: (usize, u32))
        requires
            self.wf(),
        ensures
            r.0 == self.read_len,
            r.1 == READ_BUF_SIZE - self.read_len,
    {
        (self.read_len, (READ_BUF_SIZE - self.read_len) as u32)
    }

    /// Whether a read is to be submitted: only when none is outstanding,
    /// which it then marks.
    pub fn begin_read(&mut self) -> (r: bool)
        ensures
            r == !old(self).read_inflight,
            final(self).read_inflight,
            *final(self) == (Connection { read_inflight: true, ..*old(self) }),
    {
        if self.read_inflight {
            return false;
        }
        self.read_inflight = true;
        true
    }

    /// A read completed with `result`: closes on end of stream or error;
    /// otherwise counts the bytes in, runs the request flow over everything
    /// unread, and keeps what it did not consume at the front of the buffer.
    /// Closes when the request flow fails, when the kernel reports more bytes
    /// than the buffer had room for, and when the request counter comes within
    /// a buffer's worth of overflowing. The connection is `key` on engine
    /// `thread_id`.
    #[verifier::loop_isolation(false)]
    pub fn handle_read(
        &mut self,
        result: i32,
        producer: &mut RequestProducer,
        pool: &mut BufferPool,
        key: u16,
        thread_id: u8,
    ) -> (r: ConnAction)
        requires
            old(self).wf(),
            old(pool).wf(),
        ensures
            final(self).wf(),
            final(pool).wf(),
            final(pool).capacity_spec() == old(pool).capacity_spec(),
            !final(self).read_inflight || result <= 0,
            final(pool).read_pos() == old(pool).read_pos(),
            ({
                let before = published_requests(*old(producer));
                let after = published_requests(*final(producer));
                let proceeds = result > 0 && old(self).read_len + result <= READ_BUF_SIZE
                    && old(self).next_request_seq + READ_BUF_SIZE <= u64::MAX;
                &&& !proceeds ==> {
                    &&& r == ConnAction::Close
                    &&& after == before
                    &&& *final(pool) == *old(pool)
                    &&& final(self).next_request_seq == old(self).next_request_seq
                }
                &&& proceeds ==> {
                    let buf = old(self).read_buf@.subrange(0, old(self).read_len + result);
                    let reqs = stream_requests(buf);
                    let k = after.len() - before.len();
                    &&& before.len() <= after.len()
                    &&& after.subrange(0, before.len() as int) == before
                    &&& k <= reqs.len()
                    &&& forall|i: int|
                        0 <= i < k ==> event_for(
                            #[trigger] after[before.len() + i],
                            reqs[i],
                            key,
                            thread_id,
                            old(self).next_request_seq + i,
                        )
                    &&& forall|i: int| 0 <= i < k ==> (#[trigger] after[before.len() + i]).features.fits(&*final(pool))
                    &&& forall|i: int|
                        0 <= i < k ==> (#[trigger] after[before.len() + i]).features.contents(&*final(pool))
                            == reqs[i].features
                    &&& final(pool).write_pos() == write_after(
                        old(pool).write_pos(),
                        old(pool).capacity_spec(),
                        feature_lens(reqs.subrange(0, k)),
                    )
                    &&& (r == ConnAction::Keep) == (!stream_fails(buf) && k == reqs.len())
                    &&& r == ConnAction::Keep ==> {
                        &&& final(self).unread() == buf.subrange(stream_consumed(buf) as int, buf.len() as int)
                        &&& final(self).next_request_seq == old(self).next_request_seq + k
                    }
                    &&& r == ConnAction::Close ==> {
                        ||| stream_fails(buf) && k == reqs.len() && final(self).next_request_seq
                            == old(self).next_request_seq + k
                        ||| k < reqs.len() && final(self).next_request_seq == old(self).next_request_seq + k + 1
                            && !final(pool).fits_now(reqs[k].num_vectors * FEATURE_DIM)
                    }
                }
            }),
            final(self).write_headers == old(self).write_headers,
            final(self).write_payloads == old(self).write_payloads,
            final(self).write_segments == old(self).write_segments,
            final(self).inflight_headers == old(self).inflight_headers,
            final(self).inflight_payloads == old(self).inflight_payloads,
            final(self).inflight_segments == old(self).inflight_segments,
            final(self).write_inflight == old(self).write_inflight,
            final(self).fd == old(self).fd,
    {
        if result <= 0 {
            return ConnAction::Close;
        }
        let bytes_read = result as usize;
        self.read_inflight = false;
        if bytes_read > READ_BUF_SIZE - self.read_len || self.next_request_seq > u64::MAX - READ_BUF_SIZE as u64 {
            return ConnAction::Close;
        }
        self.read_len = self.read_len + bytes_read;
        let ghost buf = self.read_buf@.subrange(0, self.read_len as int);
        let outcome = {
            let filled = vstd::slice::slice_subrange(self.read_buf.as_slice(), 0, self.read_len);
            process_requests_from_buffer(filled, producer, pool, key, thread_id, &mut self.next_request_seq)
        };
        match outcome {
            Ok((consumed, _)) => {
                proof {
                    lemma_stream_consumed_bounded(buf);
                }
                let remaining = self.read_len - consumed;
                let filled_len = self.read_len;
                let mut data: Vec<u8> = Vec::new();
                std::mem::swap(&mut data, &mut self.read_buf);
                let mut j: usize = 0;
                while j < remaining
                    invariant
                        consumed + remaining == filled_len,
                        filled_len <= READ_BUF_SIZE,
                        data@.len() == READ_BUF_SIZE,
                        j <= remaining,
                        buf.len() == filled_len,
                        forall|k: int| 0 <= k < j ==> data@[k] == buf[consumed + k],
                        forall|k: int| j <= k < filled_len ==> data@[k] == buf[k],
                    decreases remaining - j,
                {
                    let b = data[consumed + j];
                    data.set(j, b);
                    j += 1;
                }
                std::mem::swap(&mut data, &mut self.read_buf);
                self.read_len = remaining;
                proof {
                    assert(self.unread() =~= buf.subrange(consumed as int, buf.len() as int));
                }
                ConnAction::Keep
            },
            Err(_) => ConnAction::Close,
        }
    }

    /// Appends `resp` to the responses waiting for the next write: its count
    /// byte to the header scratch and its results, little-endian, to the
    /// payload scratch. Returns whether a write may be started now (none is in
    /// flight).
    #[verifier::loop_isolation(false)]
    pub fn queue_response(&mut self, resp: &InferenceResponse, pool: &BufferPool) -> (r: bool)
        requires
            old(self).wf(),
            pool.wf(),
            resp.readable(pool),
        ensures
            final(self).wf(),
            r == !old(self).write_inflight,
            final(self).queued_wire() == old(self).queued_wire() + response_bytes(resp.num_vectors, resp.results_view(pool)),
            final(self).inflight_wire() == old(self).inflight_wire(),
            final(self).write_inflight == old(self).write_inflight,
            final(self).read_inflight == old(self).read_inflight,
            final(self).read_buf == old(self).read_buf,
            final(self).read_len == old(self).read_len,
            final(self).next_request_seq == old(self).next_request_seq,
            final(self).fd == old(self).fd,
            final(self).inflight_headers == old(self).inflight_headers,
            final(self).inflight_payloads == old(self).inflight_payloads,
            final(self).inflight_segments == old(self).inflight_segments,
    {
        let ghost h0 = self.write_headers@;
        let ghost p0 = self.write_payloads@;
        let header_off = self.write_headers.len();
        self.write_headers.push(resp.num_vectors);
        let payload_start = self.write_payloads.len();
        proof {
            pool.lemma_wf();
        }
        let results = resp.results_slice(pool);
        let mut payloads: Vec<u8> = Vec::new();
        std::mem::swap(&mut payloads, &mut self.write_payloads);
        let mut i: usize = 0;
        while i < results.len()
            invariant
                i <= results@.len(),
                payloads@ == p0 + words_le(results@.subrange(0, i as int)),
                payload_start == p0.len(),
            decreases results@.len() - i,
        {
            let bytes = u32_to_le(results[i]);
            payloads.push(bytes[0]);
            payloads.push(bytes[1]);
            payloads.push(bytes[2]);
            payloads.push(bytes[3]);
            proof {
                let ws = results@.subrange(0, i as int);
                assert(results@.subrange(0, i + 1) == ws.push(results@[i as int]));
                lemma_words_le_push(ws, results@[i as int]);
            }
            i += 1;
        }
        std::mem::swap(&mut payloads, &mut self.write_payloads);
        proof {
            assert(results@.subrange(0, results@.len() as int) =~= results@);
        }
        let payload_len = results.len() * 4;
        let ghost segs0 = self.write_segments@;
        self.write_segments.push((header_off, payload_start, payload_len));
        proof {
            let h1 = self.write_headers@;
            let p1 = self.write_payloads@;
            let segs1 = self.write_segments@;
            assert(h1.subrange(0, h0.len() as int) =~= h0);
            assert(p1.subrange(0, p0.len() as int) =~= p0);
            lemma_segments_wire_extend(h0, p0, h1, p1, segs0);
            assert(segs1.drop_last() =~= segs0);
            assert(p1.subrange(payload_start as int, payload_start + payload_len) =~= words_le(results@));
            assert(segments_within(h1, p1, segs1)) by {
                assert forall|i: int| 0 <= i < segs1.len() implies (#[trigger] segs1[i]).0 < h1.len() && segs1[i].1
                    + segs1[i].2 <= p1.len() by {
                    if i < segs0.len() {
                        assert(segs1[i] == segs0[i]);
                    }
                }
            }
        }
        !self.write_inflight
    }

    /// Whether a write is to be submitted: only when none is in flight and
    /// responses are waiting. The waiting responses then become the write in
    /// flight, and new ones queue behind it.
    pub fn begin_write(&mut self) -> (r: bool)
        requires
            old(self).wf(),
        ensures
            final(self).wf(),
            r == (!old(self).write_inflight && old(self).write_segments@.len() > 0),
            r ==> {
                &&& final(self).write_inflight
                &&& final(self).inflight_wire() == old(self).queued_wire()
                &&& final(self).queued_wire() == Seq::<u8>::empty()
            },
            !r ==> *final(self) == *old(self),
            final(self).read_buf == old(self).read_buf,
            final(self).read_len == old(self).read_len,
            final(self).read_inflight == old(self).read_inflight,
            final(self).next_request_seq == old(self).next_request_seq,
            final(self).fd == old(self).fd,
    {
        if self.write_inflight || self.write_segments.len() == 0 {
            return false;
        }
        std::mem::swap(&mut self.write_headers, &mut self.inflight_headers);
        std::mem::swap(&mut self.write_payloads, &mut self.inflight_payloads);
        std::mem::swap(&mut self.write_segments, &mut self.inflight_segments);
        self.write_headers.clear();
        self.write_payloads.clear();
        self.write_segments.clear();
        self.write_inflight = true;
        true
    }

    /// A write completed with `result`: closes on error; otherwise the write
    /// in flight is done and its scratch is emptied. Responses queued
    /// meanwhile stay queued for the next `begin_write`.
    pub fn handle_write(&mut self, result: i32) -> (r: ConnAction)
        requires
            old(self).wf(),
        ensures
            final(self).wf(),
            (r == ConnAction::Close) == (result < 0),
            r == ConnAction::Keep ==> {
                &&& !final(self).write_inflight
                &&& final(self).inflight_wire() == Seq::<u8>::empty()
                &&& final(self).queued_wire() == old(self).queued_wire()
            },
            final(self).read_buf == old(self).read_buf,
            final(self).read_len == old(self).read_len,
            final(self).read_inflight == old(self).read_inflight,
            final(self).next_request_seq == old(self).next_request_seq,
            final(self).fd == old(self).fd,
    {
        if result < 0 {
            return ConnAction::Close;
        }
        self.write_inflight = false;
        self.inflight_headers.clear();
        self.inflight_payloads.clear();
        self.inflight_segments.clear();
        ConnAction::Keep
    }
}

/// The engine's wakeup step: takes every response published on its ring
/// since the last drain, in order (at least one), or says why there is none.
pub fn drain_responses(poller: &mut RespPoller) -> (r: Result<Vec<InferenceResponse>, Polling>)
    ensures
        match r {
            Ok(v) => v@.len() > 0 && delivered_responses(*final(poller)) == delivered_responses(*old(poller)) + v@,
            Err(_) => delivered_responses(*final(poller)) == delivered_responses(*old(poller)),
        },
{
    poll_responses(poller)
}

/// Gives a drained response's arena range back to `pool`, once its bytes
/// have been copied out; inline results hold no range.
pub fn reclaim_response(resp: &InferenceResponse, pool: &mut BufferPool)
    requires
        old(pool).wf(),
    ensures
        final(pool).wf(),
        final(pool).capacity_spec() == old(pool).capacity_spec(),
        final(pool).contents() == old(pool).contents(),
        final(pool).write_pos() == old(pool).write_pos(),
        match resp.results {
            ResultStorage::Inline(_) => final(pool).read_pos() == old(pool).read_pos(),
            ResultStorage::Pooled(s) => final(pool).read_pos() == old(pool).read_pos() + if s.releases_into(
                &*old(pool),
            ) {
                s.release_amount()
            } else {
                0
            },
        },
{
    match resp.results {
        ResultStorage::Inline(_) => {},
        ResultStorage::Pooled(slice) => {
            let mut slice = slice;
            slice.release(pool);
        },
    }
}

} // verus!
