//! Request path: bytes in, parse, allocate, copy, publish on the request ring.

use vstd::prelude::*;

use crate::buffer_pool::{alloc_advance, lemma_alloc_position, lemma_ranges_disjoint, AllocError, BufferPool};
use crate::constants::{FEATURE_DIM, REQUEST_HEADER_LEN};
use crate::protocol::{copy_features, parse_view, request_len, try_parse_request, word_at, ParseResult, ParseView};
use crate::ring_types::InferenceEvent;
use crate::rings::{
    delivered_requests, is_power_of_two, new_request_ring, publish_request, published_requests, RequestPoller,
    RequestProducer,
};

verus! {

/// Why processing request bytes stopped.
#[derive(Debug)]
pub enum ProcessRequestError {
    /// The request arena had no room for a request's features.
    Alloc(AllocError),
    /// A request header held a vector count out of range.
    Parse(&'static str),
}

/// One request of a byte stream: its vector count and its feature words.
pub struct RequestView {
    pub num_vectors: nat,
    pub features: Seq<u32>,
}

/// The feature words of the request at the start of `buf`, which carries `n`
/// vectors.
pub open spec fn request_features(buf: Seq<u8>, n: nat) -> Seq<u32> {
    Seq::new((n * FEATURE_DIM) as nat, |i: int| word_at(buf.subrange(REQUEST_HEADER_LEN as int, request_len(n as int)), i))
}

/// The whole requests at the start of `buf`, in order, up to the first one
/// that is incomplete or malformed.
pub open spec fn stream_requests(buf: Seq<u8>) -> Seq<RequestView>
    decreases buf.len(),
{
    match parse_view(buf) {
        ParseView::Complete { num_vectors, bytes_consumed } => if 0 < bytes_consumed <= buf.len() {
            seq![RequestView { num_vectors, features: request_features(buf, num_vectors) }] + stream_requests(
                buf.subrange(bytes_consumed as int, buf.len() as int),
            )
        } else {
            Seq::empty()
        },
        _ => Seq::empty(),
    }
}

/// How many bytes the whole requests at the start of `buf` take.
pub open spec fn stream_consumed(buf: Seq<u8>) -> nat
    decreases buf.len(),
{
    match parse_view(buf) {
        ParseView::Complete { num_vectors, bytes_consumed } => if 0 < bytes_consumed <= buf.len() {
            bytes_consumed + stream_consumed(buf.subrange(bytes_consumed as int, buf.len() as int))
        } else {
            0
        },
        _ => 0,
    }
}

/// Whether the whole requests at the start of `buf` are followed by a
/// malformed header.
pub open spec fn stream_fails(buf: Seq<u8>) -> bool
    decreases buf.len(),
{
    match parse_view(buf) {
        ParseView::Complete { num_vectors, bytes_consumed } => if 0 < bytes_consumed <= buf.len() {
            stream_fails(buf.subrange(bytes_consumed as int, buf.len() as int))
        } else {
            false
        },
        ParseView::Error => true,
        ParseView::Incomplete(_) => false,
    }
}

/// The scalars each request of `reqs` takes in the request arena.
pub open spec fn feature_lens(reqs: Seq<RequestView>) -> Seq<int> {
    Seq::new(reqs.len(), |i: int| reqs[i].num_vectors * FEATURE_DIM)
}

/// Where a write cursor at position `write` stands after allocations of
/// `lens` from an arena of `cap` scalars, each skipping the tail when it
/// would straddle the end.
pub open spec fn write_after(write: int, cap: int, lens: Seq<int>) -> int
    decreases lens.len(),
{
    if lens.len() == 0 {
        write
    } else {
        let w = write_after(write, cap, lens.drop_last());
        w + alloc_advance(w % cap, lens.last(), cap)
    }
}

/// Whether `ev` is the event that the request flow publishes for `req`.
pub open spec fn event_for(ev: InferenceEvent, req: RequestView, conn_id: u16, thread_id: u8, seq: int) -> bool {
    &&& ev.io_thread_id == thread_id
    &&& ev.conn_id == conn_id
    &&& ev.request_seq == seq
    &&& ev.num_vectors == req.num_vectors
    &&& ev.features.len_spec() == req.num_vectors * FEATURE_DIM
    &&& !ev.features.freed_spec()
}

/// Builds the request ring of `capacity` slots (a power of two): the IO
/// engine's producer and the batch processor's poller, nothing published.
pub fn build_request_channel(capacity: usize) -> (r: (RequestProducer, RequestPoller))
    requires
        is_power_of_two(capacity as nat),
    ensures
        published_requests(r.0) == Seq::<InferenceEvent>::empty(),
        delivered_requests(r.1) == Seq::<InferenceEvent>::empty(),
{
    new_request_ring(capacity)
}

/// Parses every whole request in `buf`, copies its features into `pool`, and
/// publishes one event per request (numbered from `*request_seq`, waiting
/// while the ring is full). Returns the bytes consumed and the number of
/// requests published. Stops with `Parse` at a malformed header and with
/// `Alloc` when a request's features do not fit in `pool`; the events
/// published before that stay published.
pub fn process_requests_from_buffer(
    buf: &[u8],
    producer: &mut RequestProducer,
    pool: &mut BufferPool,
    conn_id: u16,
    thread_id: u8,
    request_seq: &mut u64,
) -> (r: Result<(usize, usize), ProcessRequestError>)
    requires
        old(pool).wf(),
        *old(request_seq) + buf@.len() <= u64::MAX,
    ensures
        final(pool).wf(),
        final(pool).capacity_spec() == old(pool).capacity_spec(),
        final(pool).read_pos() == old(pool).read_pos(),
        ({
            let reqs = stream_requests(buf@);
            let before = published_requests(*old(producer));
            let after = published_requests(*final(producer));
            let k = after.len() - before.len();
            &&& before.len() <= after.len()
            &&& after.subrange(0, before.len() as int) == before
            &&& k <= reqs.len()
            &&& forall|i: int|
                0 <= i < k ==> event_for(
                    #[trigger] after[before.len() + i],
                    reqs[i],
                    conn_id,
                    thread_id,
                    *old(request_seq) + i,
                )
            &&& forall|i: int| 0 <= i < k ==> (#[trigger] after[before.len() + i]).features.fits(&*final(pool))
            &&& forall|i: int|
                0 <= i < k ==> (#[trigger] after[before.len() + i]).features.contents(&*final(pool)) == reqs[i].features
            &&& final(pool).write_pos() == write_after(
                old(pool).write_pos(),
                old(pool).capacity_spec(),
                feature_lens(reqs.subrange(0, k)),
            )
            &&& match r {
                Ok((consumed, published)) => {
                    &&& !stream_fails(buf@)
                    &&& consumed == stream_consumed(buf@)
                    &&& published == reqs.len()
                    &&& k == reqs.len()
                    &&& *final(request_seq) == *old(request_seq) + k
                },
                Err(ProcessRequestError::Parse(_)) => {
                    &&& stream_fails(buf@)
                    &&& k == reqs.len()
                    &&& *final(request_seq) == *old(request_seq) + k
                },
                Err(ProcessRequestError::Alloc(_)) => {
                    &&& k < reqs.len()
                    &&& *final(request_seq) == *old(request_seq) + k + 1
                    &&& !final(pool).fits_now(reqs[k].num_vectors * FEATURE_DIM)
                },
            }
        }),
{
    let ghost reqs = stream_requests(buf@);
    let ghost before = published_requests(*producer);
    let ghost seq0 = *request_seq;
    let mut consumed: usize = 0;
    let mut num_published: usize = 0;
    let ghost mut positions: Seq<int> = Seq::empty();
    assert(buf@.subrange(0, buf@.len() as int) =~= buf@);
    assert(reqs.subrange(0, 0) + reqs =~= reqs);
    while consumed < buf.len()
        invariant_except_break
            consumed <= buf@.len(),
            pool.wf(),
            pool.capacity_spec() == old(pool).capacity_spec(),
            pool.read_pos() == old(pool).read_pos(),
            reqs == stream_requests(buf@),
            before == published_requests(*old(producer)),
            seq0 == *old(request_seq),
            seq0 + buf@.len() <= u64::MAX,
            num_published <= reqs.len(),
            4 * num_published <= consumed,
            reqs == reqs.subrange(0, num_published as int) + stream_requests(
                buf@.subrange(consumed as int, buf@.len() as int),
            ),
            stream_consumed(buf@) == consumed + stream_consumed(buf@.subrange(consumed as int, buf@.len() as int)),
            stream_fails(buf@) == stream_fails(buf@.subrange(consumed as int, buf@.len() as int)),
            *request_seq == seq0 + num_published,
            published_requests(*producer).len() == before.len() + num_published,
            published_requests(*producer).subrange(0, before.len() as int) == before,
            forall|i: int|
                0 <= i < num_published ==> event_for(
                    #[trigger] published_requests(*producer)[before.len() + i],
                    reqs[i],
                    conn_id,
                    thread_id,
                    seq0 + i,
                ),
            positions.len() == num_published,
            pool.write_pos() == write_after(
                old(pool).write_pos(),
                old(pool).capacity_spec(),
                feature_lens(reqs.subrange(0, num_published as int)),
            ),
            pool.write_pos() >= old(pool).write_pos(),
            forall|i: int|
                0 <= i < num_published ==> {
                    let ev = #[trigger] published_requests(*producer)[before.len() + i];
                    &&& ev.features.offset_spec() == positions[i] % pool.capacity_spec()
                    &&& ev.features.fits(&*pool)
                    &&& ev.features.len_spec() > 0
                    &&& pool.read_pos() <= positions[i]
                    &&& positions[i] + ev.features.len_spec() <= pool.write_pos()
                },
            forall|i: int|
                0 <= i < num_published ==> (#[trigger] published_requests(*producer)[before.len() + i]).features.contents(&*pool)
                    == reqs[i].features,
        ensures
            consumed <= buf@.len(),
            pool.wf(),
            pool.capacity_spec() == old(pool).capacity_spec(),
            pool.read_pos() == old(pool).read_pos(),
            num_published == reqs.len(),
            stream_consumed(buf@) == consumed,
            !stream_fails(buf@),
            *request_seq == seq0 + num_published,
            published_requests(*producer).len() == before.len() + num_published,
            published_requests(*producer).subrange(0, before.len() as int) == before,
            forall|i: int|
                0 <= i < num_published ==> event_for(
                    #[trigger] published_requests(*producer)[before.len() + i],
                    reqs[i],
                    conn_id,
                    thread_id,
                    seq0 + i,
                ),
            positions.len() == num_published,
            pool.write_pos() == write_after(
                old(pool).write_pos(),
                old(pool).capacity_spec(),
                feature_lens(reqs.subrange(0, num_published as int)),
            ),
            pool.write_pos() >= old(pool).write_pos(),
            forall|i: int|
                0 <= i < num_published ==> {
                    let ev = #[trigger] published_requests(*producer)[before.len() + i];
                    &&& ev.features.offset_spec() == positions[i] % pool.capacity_spec()
                    &&& ev.features.fits(&*pool)
                    &&& ev.features.len_spec() > 0
                    &&& pool.read_pos() <= positions[i]
                    &&& positions[i] + ev.features.len_spec() <= pool.write_pos()
                },
            forall|i: int|
                0 <= i < num_published ==> (#[trigger] published_requests(*producer)[before.len() + i]).features.contents(&*pool)
                    == reqs[i].features,
        decreases buf@.len() - consumed,
    {
        let slice = vstd::slice::slice_subrange(buf, consumed, buf.len());
        let ghost rest = buf@.subrange(consumed as int, buf@.len() as int);
        assert(slice@ == rest);
        match try_parse_request(slice) {
            ParseResult::Complete { num_vectors, bytes_consumed } => {
                let ghost req = RequestView {
                    num_vectors: num_vectors as nat,
                    features: request_features(rest, num_vectors as nat),
                };
                let ghost tail = rest.subrange(bytes_consumed as int, rest.len() as int);
                proof {
                    assert(stream_requests(rest) == seq![req] + stream_requests(tail));
                    assert(reqs[num_published as int] == req);
                    pool.lemma_wf();
                }
                let feature_bytes = vstd::slice::slice_subrange(slice, REQUEST_HEADER_LEN, bytes_consumed);
                let seq = *request_seq;
                *request_seq = seq + 1;
                let feature_count = num_vectors as usize * FEATURE_DIM;
                let ghost pool_pre = *pool;
                let ghost prod_pre = published_requests(*producer);
                match pool.allocate(feature_count) {
                    Err(e) => {
                        proof {
                            pool.lemma_wf();
                        }
                        return Err(ProcessRequestError::Alloc(e));
                    },
                    Ok(mut pool_slice) => {
                        let ghost pool_alloc = *pool;
                        copy_features(feature_bytes, pool_slice.as_mut_slice(), num_vectors);
                        proof {
                            assert(feature_bytes@ == rest.subrange(REQUEST_HEADER_LEN as int, bytes_consumed as int));
                            assert(pool_slice.staged() =~= req.features);
                        }
                        let features = pool_slice.freeze(pool);
                        let ev = InferenceEvent {
                            io_thread_id: thread_id,
                            conn_id,
                            request_seq: seq,
                            num_vectors: num_vectors as u8,
                            features,
                        };
                        publish_request(producer, ev);
                        let ghost v: int = pool_pre.write_pos() + alloc_advance(
                            pool_pre.next_offset(),
                            feature_count as int,
                            pool_pre.capacity_spec(),
                        ) - feature_count as int;
                        proof {
                            let c = pool.capacity_spec();
                            let len = feature_count as int;
                            lemma_alloc_position(&pool_pre, len);
                            pool_pre.lemma_wf();
                            pool.lemma_wf();
                            let n0 = num_published as int;
                            let after = published_requests(*producer);
                            assert(after == prod_pre.push(ev));
                            assert forall|i: int| 0 <= i < n0 implies {
                                let e = #[trigger] after[before.len() + i];
                                &&& e.features.offset_spec() == positions.push(v)[i] % c
                                &&& e.features.fits(&*pool)
                                &&& e.features.len_spec() > 0
                                &&& pool.read_pos() <= positions.push(v)[i]
                                &&& positions.push(v)[i] + e.features.len_spec() <= pool.write_pos()
                                &&& e.features.contents(&*pool) == reqs[i].features
                            } by {
                                let e = after[before.len() + i];
                                assert(e == prod_pre[before.len() + i]);
                                assert(positions.push(v)[i] == positions[i]);
                                lemma_ranges_disjoint(positions[i], e.features.len_spec() as int, v, len, c);
                                assert(e.features.contents(&*pool) =~= e.features.contents(&pool_pre));
                            }
                            assert(after[before.len() + n0] == ev);
                            assert(positions.push(v)[n0] == v);
                        }
                        proof {
                            positions = positions.push(v);
                        }
                        proof {
                            assert(tail =~= buf@.subrange(consumed + bytes_consumed, buf@.len() as int));
                            let l0 = feature_lens(reqs.subrange(0, num_published as int));
                            let l1 = feature_lens(reqs.subrange(0, num_published + 1));
                            assert(l1.drop_last() =~= l0);
                            assert(l1.last() == feature_count as int);
                            assert(reqs.subrange(0, num_published + 1) =~= reqs.subrange(0, num_published as int)
                                + seq![req]);
                            assert(stream_consumed(rest) == bytes_consumed + stream_consumed(tail));
                        }
                        num_published += 1;
                        consumed += bytes_consumed;
                    },
                }
            },
            ParseResult::Incomplete(_) => {
                assert(stream_requests(rest) == Seq::<RequestView>::empty());
                assert(reqs =~= reqs.subrange(0, num_published as int));
                break;
            },
            ParseResult::Error(e) => {
                assert(reqs =~= reqs.subrange(0, num_published as int));
                return Err(ProcessRequestError::Parse(e));
            },
        }
    }
    proof {
        if consumed == buf@.len() {
            assert(buf@.subrange(consumed as int, buf@.len() as int) =~= Seq::<u8>::empty());
            assert(reqs =~= reqs.subrange(0, num_published as int));
        }
    }
    Ok((consumed, num_published))
}

/// The whole requests at the start of a buffer never take more than the buffer.
pub proof fn lemma_stream_consumed_bounded(buf: Seq<u8>)
    ensures
        stream_consumed(buf) <= buf.len(),
    decreases buf.len(),
{
    match parse_view(buf) {
        ParseView::Complete { num_vectors, bytes_consumed } => {
            if 0 < bytes_consumed <= buf.len() {
                lemma_stream_consumed_bounded(buf.subrange(bytes_consumed as int, buf.len() as int));
            }
        },
        _ => {},
    }
}

/// What parsing decides at the start of a buffer does not change when more
/// bytes follow, once a whole request or a malformed header is present.
proof fn lemma_parse_prefix_stable(b: Seq<u8>, y: Seq<u8>)
    requires
        !(parse_view(b) is Incomplete),
    ensures
        parse_view(b + y) == parse_view(b),
        parse_view(b) matches ParseView::Complete { num_vectors, bytes_consumed } ==> {
            &&& request_features(b + y, num_vectors) == request_features(b, num_vectors)
            &&& (b + y).subrange(bytes_consumed as int, (b + y).len() as int) == b.subrange(
                bytes_consumed as int,
                b.len() as int,
            ) + y
        },
{
    let by = b + y;
    assert(by[0] == b[0] && by[1] == b[1] && by[2] == b[2] && by[3] == b[3]);
    if let ParseView::Complete { num_vectors, bytes_consumed } = parse_view(b) {
        let k = bytes_consumed as int;
        assert(by.subrange(REQUEST_HEADER_LEN as int, k) =~= b.subrange(REQUEST_HEADER_LEN as int, k));
        assert(request_features(by, num_vectors) =~= request_features(b, num_vectors));
        assert(by.subrange(k, by.len() as int) =~= b.subrange(k, b.len() as int) + y);
    }
}

/// Splitting a byte stream anywhere does not change the requests found in
/// it: the requests of the first part, then those found once the part's
/// unconsumed tail is joined with the rest of the stream, are the requests of
/// the whole stream, and the bytes consumed add up.
pub proof fn lemma_split_stream(x: Seq<u8>, y: Seq<u8>)
    ensures
        ({
            let rest = x.subrange(stream_consumed(x) as int, x.len() as int) + y;
            &&& stream_requests(x) + stream_requests(rest) == stream_requests(x + y)
            &&& stream_consumed(x) + stream_consumed(rest) == stream_consumed(x + y)
            &&& stream_fails(rest) == stream_fails(x + y)
        }),
    decreases x.len(),
{
    match parse_view(x) {
        ParseView::Complete { num_vectors, bytes_consumed } => {
            lemma_parse_prefix_stable(x, y);
            let k = bytes_consumed as int;
            let x2 = x.subrange(k, x.len() as int);
            lemma_split_stream(x2, y);
            lemma_stream_consumed_bounded(x2);
            assert(stream_consumed(x) == k + stream_consumed(x2));
            assert(x2.subrange(stream_consumed(x2) as int, x2.len() as int) =~= x.subrange(
                stream_consumed(x) as int,
                x.len() as int,
            ));
            let req = RequestView { num_vectors, features: request_features(x, num_vectors) };
            assert(stream_requests(x) == seq![req] + stream_requests(x2));
            assert(stream_requests(x + y) == seq![req] + stream_requests(x2 + y));
            assert(seq![req] + stream_requests(x2) + stream_requests(x2.subrange(stream_consumed(x2) as int, x2.len() as int) + y)
                =~= seq![req] + (stream_requests(x2) + stream_requests(x2.subrange(stream_consumed(x2) as int, x2.len() as int) + y)));
        },
        ParseView::Error => {
            lemma_parse_prefix_stable(x, y);
            assert(x.subrange(0, x.len() as int) =~= x);
            assert(stream_requests(x) + stream_requests(x + y) =~= stream_requests(x + y));
        },
        ParseView::Incomplete(_) => {
            assert(x.subrange(0, x.len() as int) =~= x);
            assert(stream_requests(x) + stream_requests(x + y) =~= stream_requests(x + y));
        },
    }
}

} // verus!
