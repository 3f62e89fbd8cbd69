//! Batch step: drain the request ring, compute one result per vector, publish
//! the responses on the ring of the IO engine each request came from.

use vstd::prelude::*;

use crate::buffer_pool::{alloc_advance, alloc_start, lemma_alloc_position, lemma_ranges_disjoint, BufferPool};
use crate::constants::{FEATURE_DIM, INLINE_RESULT_CAPACITY, MAX_VECTORS_PER_REQUEST};
use crate::response_queue::ResponseProducer;
use crate::ring_types::{InferenceEvent, InferenceResponse};
use crate::rings::{delivered_requests, poll_requests, published_responses, Polling, RequestPoller};

verus! {

/// Outcome of a poll cycle: for each response channel, whether it received a
/// response (its IO engine is then to be woken), or why nothing was polled.
pub type PollCycleResult = Result<Vec<bool>, Polling>;

/// Consumes request events and answers each on its engine's response ring.
pub struct BatchProcessor {
    pub poller: RequestPoller,
    pub response_producers: Vec<ResponseProducer>,
    /// Events already polled whose response found no room in its arena.
    pub pending: Vec<InferenceEvent>,
}

/// The features of vector `v` of `ev`, as they stand in `pool`.
pub open spec fn vector_of(ev: InferenceEvent, pool: &BufferPool, v: int) -> Seq<u32> {
    ev.features.contents(pool).subrange(v * FEATURE_DIM, (v + 1) * FEATURE_DIM)
}

/// Whether `r` holds, for each vector of `ev`, a result that `kernel` may
/// return on that vector's features.
pub open spec fn results_from<F: Fn(&[u32]) -> u32>(
    r: Seq<u32>,
    ev: InferenceEvent,
    pool: &BufferPool,
    kernel: F,
) -> bool {
    &&& r.len() == ev.num_vectors
    &&& forall|v: int| 0 <= v < r.len() ==> kernel_gives(kernel, vector_of(ev, pool, v), #[trigger] r[v])
}

/// Whether `kernel` may return `value` on a slice holding `features`.
pub open spec fn kernel_gives<F: Fn(&[u32]) -> u32>(kernel: F, features: Seq<u32>, value: u32) -> bool {
    exists|s: &[u32]| s@ == features && #[trigger] call_ensures(kernel, (s,), value)
}

/// Whether `resp` answers `ev`: same connection, sequence number and count.
pub open spec fn answers(resp: InferenceResponse, ev: InferenceEvent) -> bool {
    &&& resp.conn_id == ev.conn_id
    &&& resp.request_seq == ev.request_seq
    &&& resp.num_vectors == ev.num_vectors
}

/// Whether the batch processor can answer `ev`: its features lie in
/// `pool` and its engine has a response channel among `n`.
pub open spec fn routable(ev: InferenceEvent, pool: &BufferPool, n: int) -> bool {
    ev.well_formed(pool) && ev.io_thread_id < n
}

/// Runs `kernel` on each vector of `ev`, in order.
pub fn compute_results<F: Fn(&[u32]) -> u32>(ev: &InferenceEvent, pool: &BufferPool, kernel: &F) -> (r: Vec<u32>)
    requires
        pool.wf(),
        ev.well_formed(pool),
        forall|s: &[u32]| call_requires(*kernel, (s,)),
    ensures
        results_from(r@, *ev, pool, *kernel),
{
    let num_vecs = ev.num_vectors as usize;
    let mut results: Vec<u32> = Vec::new();
    let mut v: usize = 0;
    while v < num_vecs
        invariant
            pool.wf(),
            ev.well_formed(pool),
            num_vecs == ev.num_vectors,
            v <= num_vecs,
            results@.len() == v,
            forall|s: &[u32]| call_requires(*kernel, (s,)),
            forall|w: int| 0 <= w < v ==> kernel_gives(*kernel, vector_of(*ev, pool, w), #[trigger] results@[w]),
        decreases num_vecs - v,
    {
        proof {
            assert((v + 1) * FEATURE_DIM <= num_vecs * FEATURE_DIM) by (nonlinear_arith)
                requires v < num_vecs;
        }
        let vector = ev.vector(pool, v);
        let value = kernel(vector);
        let ghost prev = results@;
        results.push(value);
        proof {
            assert(vector@ == vector_of(*ev, pool, v as int));
            assert(call_ensures(*kernel, (vector,), value));
            assert(kernel_gives(*kernel, vector_of(*ev, pool, v as int), value));
            assert forall|w: int| 0 <= w <= v implies kernel_gives(*kernel, vector_of(*ev, pool, w), #[trigger] results@[w]) by {
                if w < v {
                    assert(results@[w] == prev[w]);
                }
            }
        }
        v += 1;
    }
    results
}

/// The events of `evs` that the batch processor answers on channel `t`, in
/// order.
pub open spec fn routed(evs: Seq<InferenceEvent>, t: int, pool: &BufferPool, n: int) -> Seq<InferenceEvent>
    decreases evs.len(),
{
    if evs.len() == 0 {
        Seq::empty()
    } else {
        let rest = routed(evs.drop_last(), t, pool, n);
        if routable(evs.last(), pool, n) && evs.last().io_thread_id == t {
            rest.push(evs.last())
        } else {
            rest
        }
    }
}

/// Whether `resps` answer `evs` one for one, with the kernel's results
/// wherever they are kept inline.
pub open spec fn answered<F: Fn(&[u32]) -> u32>(
    resps: Seq<InferenceResponse>,
    evs: Seq<InferenceEvent>,
    pool: &BufferPool,
    kernel: F,
) -> bool {
    &&& resps.len() == evs.len()
    &&& forall|j: int|
        0 <= j < resps.len() ==> {
            &&& answers(#[trigger] resps[j], evs[j])
            &&& resps[j].num_vectors <= INLINE_RESULT_CAPACITY <==> resps[j].results is Inline
            &&& resps[j].results is Inline ==> results_from(resps[j].inline_results(), evs[j], pool, kernel)
        }
}

/// Whether each pooled response of `resps` can be read from `rpool` and
/// holds the kernel's results for the matching event of `evs`.
pub open spec fn pooled_answered<F: Fn(&[u32]) -> u32>(
    resps: Seq<InferenceResponse>,
    evs: Seq<InferenceEvent>,
    pool: &BufferPool,
    rpool: &BufferPool,
    kernel: F,
) -> bool {
    forall|j: int|
        0 <= j < resps.len() && (#[trigger] resps[j]).results is Pooled ==> {
            &&& resps[j].readable(rpool)
            &&& results_from(resps[j].results_view(rpool), evs[j], pool, kernel)
        }
}

/// Responses published on channel `t` since `start`.
pub open spec fn fresh_on(cur: BatchProcessor, start: BatchProcessor, t: int) -> Seq<InferenceResponse> {
    cur.published_on(t).subrange(start.published_on(t).len() as int, cur.published_on(t).len() as int)
}

/// What the request arena gets back when the features of `evs` are released
/// in order, starting with `in_use` scalars in use.
pub open spec fn reclaimed(in_use: int, evs: Seq<InferenceEvent>) -> int
    decreases evs.len(),
{
    if evs.len() == 0 {
        0
    } else {
        let r = reclaimed(in_use, evs.drop_last());
        let f = evs.last().features;
        if f.len_spec() > 0 && !f.freed_spec() && f.release_amount() <= in_use - r {
            r + f.release_amount()
        } else {
            r
        }
    }
}

/// Whether every arena of `pools` is well formed.
pub open spec fn all_wf(pools: Seq<BufferPool>) -> bool {
    forall|t: int| 0 <= t < pools.len() ==> (#[trigger] pools[t]).wf()
}

/// What happened to one event.
enum EventOutcome {
    Answered,
    Skipped,
    NoRoom,
}

impl BatchProcessor {
    /// A batch processor with nothing pending.
    pub fn new(poller: RequestPoller, response_producers: Vec<ResponseProducer>) -> (r: Self)
        ensures
            r.poller == poller,
            r.response_producers == response_producers,
            r.pending_events() == Seq::<InferenceEvent>::empty(),
    {
        BatchProcessor { poller, response_producers, pending: Vec::new() }
    }

    /// Events polled earlier whose response found no room; the next cycle
    /// answers them before it polls again.
    pub open spec fn pending_events(&self) -> Seq<InferenceEvent> {
        self.pending@
    }

    /// Everything published so far on response channel `t`.
    pub open spec fn published_on(&self, t: int) -> Seq<InferenceResponse> {
        published_responses(self.response_producers@[t].producer)
    }

    /// Answers one event: computes its results, keeps them in a response
    /// (in the arena of its engine when they do not fit inline), releases the
    /// features and publishes the response. An event it cannot answer still
    /// releases its features; one whose response finds no room keeps them.
    fn answer_event<F: Fn(&[u32]) -> u32>(
        &mut self,
        ev: InferenceEvent,
        request_pool: &mut BufferPool,
        result_pools: &mut Vec<BufferPool>,
        kernel: &F,
    ) -> (r: EventOutcome)
        requires
            old(request_pool).wf(),
            all_wf(old(result_pools)@),
            old(result_pools)@.len() == old(self).response_producers@.len(),
            forall|s: &[u32]| call_requires(*kernel, (s,)),
        ensures
            final(request_pool).wf(),
            final(request_pool).capacity_spec() == old(request_pool).capacity_spec(),
            final(request_pool).contents() == old(request_pool).contents(),
            final(request_pool).write_pos() == old(request_pool).write_pos(),
            final(request_pool).read_pos() == old(request_pool).read_pos() + if r != EventOutcome::NoRoom
                && ev.features.releases_into(&*old(request_pool)) {
                ev.features.release_amount()
            } else {
                0
            },
            all_wf(final(result_pools)@),
            final(result_pools)@.len() == old(result_pools)@.len(),
            final(self).poller == old(self).poller,
            final(self).pending == old(self).pending,
            final(self).response_producers@.len() == old(self).response_producers@.len(),
            forall|t: int|
                0 <= t < old(self).response_producers@.len() ==> (#[trigger] final(self).response_producers@[t]).eventfd
                    == old(self).response_producers@[t].eventfd,
            (r == EventOutcome::Skipped) == !routable(ev, old(request_pool), old(self).response_producers@.len() as int),
            r == EventOutcome::NoRoom ==> {
                let p = final(result_pools)@[ev.io_thread_id as int];
                &&& ev.num_vectors > INLINE_RESULT_CAPACITY
                &&& !p.fits_now(ev.num_vectors as int)
            },
            forall|t: int|
                0 <= t < old(self).response_producers@.len() ==> #[trigger] final(self).published_on(t) == if r
                    == EventOutcome::Answered && t == ev.io_thread_id {
                    old(self).published_on(t).push(final(self).published_on(t).last())
                } else {
                    old(self).published_on(t)
                },
            r == EventOutcome::Answered ==> answered(
                seq![final(self).published_on(ev.io_thread_id as int).last()],
                seq![ev],
                old(request_pool),
                *kernel,
            ),
            forall|u: int|
                0 <= u < old(result_pools)@.len() && !(r == EventOutcome::Answered && u == ev.io_thread_id)
                    ==> #[trigger] final(result_pools)@[u] == old(result_pools)@[u],
            r == EventOutcome::Answered ==> {
                let t = ev.io_thread_id as int;
                let resp = final(self).published_on(t).last();
                let p = old(result_pools)@[t];
                let q = final(result_pools)@[t];
                &&& resp.results is Inline ==> q == p
                &&& resp.results is Pooled ==> {
                    let s = resp.results->Pooled_0;
                    let c = p.capacity_spec();
                    &&& q.capacity_spec() == c
                    &&& q.read_pos() == p.read_pos()
                    &&& 0 < s.len_spec() <= c
                    &&& q.write_pos() == p.write_pos() + alloc_advance(p.next_offset(), s.len_spec() as int, c)
                    &&& s.offset_spec() == alloc_start(p.next_offset(), s.len_spec() as int, c)
                    &&& resp.readable(&q)
                    &&& results_from(s.contents(&q), ev, old(request_pool), *kernel)
                    &&& q.contents().len() == p.contents().len()
                    &&& forall|k: int|
                        0 <= k < q.contents().len() && !(s.offset_spec() <= k < s.offset_spec() + s.len_spec())
                            ==> #[trigger] q.contents()[k] == p.contents()[k]
                }
            },
    {
        let n = self.response_producers.len();
        if !(ev.num_vectors as usize <= MAX_VECTORS_PER_REQUEST && ev.features.len() == ev.num_vectors as usize
            * FEATURE_DIM && ev.features.offset() <= request_pool.capacity() && ev.features.len()
            <= request_pool.capacity() - ev.features.offset()) || ev.io_thread_id as usize >= n {
            let mut features = ev.features;
            features.release(request_pool);
            return EventOutcome::Skipped;
        }
        let t = ev.io_thread_id as usize;
        let results = compute_results(&ev, request_pool, kernel);
        let response = if results.len() > INLINE_RESULT_CAPACITY {
            InferenceResponse::with_results(ev.conn_id, ev.request_seq, results.as_slice(), Some(&mut result_pools[t]))
        } else {
            InferenceResponse::with_results(ev.conn_id, ev.request_seq, results.as_slice(), None)
        };
        match response {
            Err(_) => {
                proof {
                    old(result_pools)@[t as int].lemma_wf();
                    result_pools@[t as int].lemma_wf();
                    assert(result_pools@ =~= old(result_pools)@);
                }
                EventOutcome::NoRoom
            },
            Ok(resp) => {
                let mut features = ev.features;
                features.release(request_pool);
                self.response_producers[t].send(resp);
                EventOutcome::Answered
            },
        }
    }
}

/// The events of `v` from index `from` on.
fn tail_of(v: &Vec<InferenceEvent>, from: usize) -> (r: Vec<InferenceEvent>)
    requires
        from <= v@.len(),
    ensures
        r@ == v@.subrange(from as int, v@.len() as int),
{
    let mut r: Vec<InferenceEvent> = Vec::new();
    let mut i = from;
    while i < v.len()
        invariant
            from <= i <= v@.len(),
            r@ == v@.subrange(from as int, i as int),
        decreases v@.len() - i,
    {
        r.push(v[i]);
        i += 1;
        proof {
            assert(r@ =~= v@.subrange(from as int, i as int));
        }
    }
    r
}

/// Answering one more event extends the answers on each channel by what was
/// published for it.
proof fn lemma_answered_push<F: Fn(&[u32]) -> u32>(
    resps: Seq<InferenceResponse>,
    evs: Seq<InferenceEvent>,
    resp: InferenceResponse,
    ev: InferenceEvent,
    pool: &BufferPool,
    kernel: F,
)
    requires
        answered(resps, evs, pool, kernel),
        answered(seq![resp], seq![ev], pool, kernel),
    ensures
        answered(resps.push(resp), evs.push(ev), pool, kernel),
{
    let a = resps.push(resp);
    let b = evs.push(ev);
    assert forall|j: int| 0 <= j < a.len() implies {
        &&& answers(#[trigger] a[j], b[j])
        &&& a[j].num_vectors <= INLINE_RESULT_CAPACITY <==> a[j].results is Inline
        &&& a[j].results is Inline ==> results_from(a[j].inline_results(), b[j], pool, kernel)
    } by {
        if j < resps.len() {
            assert(a[j] == resps[j] && b[j] == evs[j]);
        } else {
            assert(a[j] == seq![resp][0] && b[j] == seq![ev][0]);
        }
    }
}

impl BatchProcessor {
    /// One cycle: takes the pending events, or else polls the request ring
    /// (returning its `NoEvents` or `Shutdown`). Answers the events in order,
    /// each on the channel of its engine, and skips those that do not describe
    /// features inside `request_pool` or name no channel. An event whose
    /// results need its engine's arena when that arena has no room stays
    /// pending, with all that follow it. Returns which channels received a
    /// response, so that their engines be woken.
    pub fn process_one_poll_cycle<F: Fn(&[u32]) -> u32>(
        &mut self,
        request_pool: &mut BufferPool,
        result_pools: &mut Vec<BufferPool>,
        kernel: &F,
    ) -> (r: PollCycleResult)
        requires
            old(request_pool).wf(),
            all_wf(old(result_pools)@),
            old(result_pools)@.len() == old(self).response_producers@.len(),
            forall|s: &[u32]| call_requires(*kernel, (s,)),
        ensures
            final(request_pool).wf(),
            final(request_pool).capacity_spec() == old(request_pool).capacity_spec(),
            final(request_pool).contents() == old(request_pool).contents(),
            all_wf(final(result_pools)@),
            final(result_pools)@.len() == old(result_pools)@.len(),
            final(self).response_producers@.len() == old(self).response_producers@.len(),
            forall|t: int|
                0 <= t < old(self).response_producers@.len() ==> (#[trigger] final(self).response_producers@[t]).eventfd
                    == old(self).response_producers@[t].eventfd,
            ({
                let n = old(self).response_producers@.len() as int;
                let before = delivered_requests(old(self).poller);
                let after = delivered_requests(final(self).poller);
                let evs = if old(self).pending_events().len() > 0 {
                    old(self).pending_events()
                } else {
                    after.subrange(before.len() as int, after.len() as int)
                };
                let k = evs.len() - final(self).pending_events().len();
                &&& before.len() <= after.len()
                &&& after.subrange(0, before.len() as int) == before
                &&& old(self).pending_events().len() > 0 ==> after == before
                &&& match r {
                    Err(_) => {
                        &&& old(self).pending_events().len() == 0
                        &&& after == before
                        &&& *final(request_pool) == *old(request_pool)
                        &&& final(result_pools)@ == old(result_pools)@
                        &&& final(self).pending_events().len() == 0
                        &&& forall|t: int| 0 <= t < n ==> #[trigger] final(self).published_on(t) == old(self).published_on(t)
                    },
                    Ok(signaled) => {
                        &&& signaled@.len() == n
                        &&& 0 <= k <= evs.len()
                        &&& final(self).pending_events() == evs.subrange(k, evs.len() as int)
                        &&& final(request_pool).write_pos() == old(request_pool).write_pos()
                        &&& final(request_pool).read_pos() == old(request_pool).read_pos() + reclaimed(
                            old(request_pool).in_use(),
                            evs.subrange(0, k),
                        )
                        &&& k < evs.len() ==> {
                            let p = final(result_pools)@[evs[k].io_thread_id as int];
                            &&& routable(evs[k], old(request_pool), n)
                            &&& evs[k].num_vectors > INLINE_RESULT_CAPACITY
                            &&& !p.fits_now(evs[k].num_vectors as int)
                        }
                        &&& forall|t: int|
                            0 <= t < n ==> {
                                let old_t = old(self).published_on(t);
                                let new_t = #[trigger] final(self).published_on(t);
                                &&& old_t.len() <= new_t.len()
                                &&& new_t.subrange(0, old_t.len() as int) == old_t
                                &&& answered(
                                    new_t.subrange(old_t.len() as int, new_t.len() as int),
                                    routed(evs.subrange(0, k), t, old(request_pool), n),
                                    old(request_pool),
                                    *kernel,
                                )
                                &&& pooled_answered(
                                    new_t.subrange(old_t.len() as int, new_t.len() as int),
                                    routed(evs.subrange(0, k), t, old(request_pool), n),
                                    old(request_pool),
                                    &final(result_pools)@[t],
                                    *kernel,
                                )
                                &&& final(result_pools)@[t].read_pos() == old(result_pools)@[t].read_pos()
                                &&& signaled@[t] == (old_t.len() < new_t.len())
                            }
                    },
                }
            }),
    {
        let ghost pool0 = *request_pool;
        let ghost self0 = *self;
        let events: Vec<InferenceEvent> = if self.pending.len() > 0 {
            let mut taken: Vec<InferenceEvent> = Vec::new();
            std::mem::swap(&mut taken, &mut self.pending);
            taken
        } else {
            match poll_requests(&mut self.poller) {
                Ok(v) => v,
                Err(e) => {
                    proof {
                        assert(delivered_requests(self.poller).subrange(0, delivered_requests(self0.poller).len() as int)
                            =~= delivered_requests(self0.poller));
                    }
                    return Err(e);
                },
            }
        };
        let ghost evs = events@;
        let ghost poller1 = self.poller;
        let ghost rp0 = result_pools@;
        let ghost mut gpos: Seq<Seq<int>> = Seq::new(self.response_producers@.len(), |t: int| Seq::<int>::empty());
        let n = self.response_producers.len();
        let mut signaled: Vec<bool> = vec![false; n];
        let mut i: usize = 0;
        proof {
            assert(delivered_requests(self.poller).subrange(0, delivered_requests(self0.poller).len() as int)
                =~= delivered_requests(self0.poller));
            assert forall|t: int| 0 <= t < n implies routed(#[trigger] evs.subrange(0, 0), t, &pool0, n as int) == Seq::<InferenceEvent>::empty() by {
                assert(evs.subrange(0, 0).len() == 0);
            }
            assert forall|t: int| 0 <= t < n implies {
                let old_t = self0.published_on(t);
                let new_t = #[trigger] self.published_on(t);
                new_t.subrange(old_t.len() as int, new_t.len() as int) =~= Seq::<InferenceResponse>::empty()
                && new_t.subrange(0, old_t.len() as int) =~= old_t
            } by {}
        }
        let mut stop = false;
        while i < events.len() && !stop
            invariant
                i <= events@.len(),
                evs == events@,
                request_pool.wf(),
                request_pool.capacity_spec() == pool0.capacity_spec(),
                request_pool.contents() == pool0.contents(),
                pool0 == *old(request_pool),
                pool0.wf(),
                request_pool.write_pos() == pool0.write_pos(),
                request_pool.read_pos() == pool0.read_pos() + reclaimed(pool0.in_use(), evs.subrange(0, i as int)),
                all_wf(result_pools@),
                result_pools@.len() == n,
                n == self0.response_producers@.len(),
                self0 == *old(self),
                self.poller == poller1,
                self0.pending@.len() > 0 ==> evs == self0.pending@ && poller1 == self0.poller,
                self0.pending@.len() == 0 ==> delivered_requests(poller1) == delivered_requests(self0.poller) + evs,
                !stop ==> self.pending@ == Seq::<InferenceEvent>::empty(),
                stop ==> {
                    let p = result_pools@[evs[i as int].io_thread_id as int];
                    &&& i < evs.len()
                    &&& self.pending@ == evs.subrange(i as int, evs.len() as int)
                    &&& routable(evs[i as int], &pool0, n as int)
                    &&& evs[i as int].num_vectors > INLINE_RESULT_CAPACITY
                    &&& !p.fits_now(evs[i as int].num_vectors as int)
                },
                self.response_producers@.len() == n,
                forall|t: int|
                    0 <= t < n ==> (#[trigger] self.response_producers@[t]).eventfd == self0.response_producers@[t].eventfd,
                gpos.len() == n,
                rp0 == old(result_pools)@,
                rp0.len() == n,
                forall|t: int|
                    0 <= t < n ==> {
                        let pl = #[trigger] result_pools@[t];
                        let fresh = fresh_on(*self, self0, t);
                        &&& pl.read_pos() == rp0[t].read_pos()
                        &&& pl.capacity_spec() == rp0[t].capacity_spec()
                        &&& gpos[t].len() == fresh.len()
                        &&& forall|j: int|
                            0 <= j < fresh.len() && (#[trigger] fresh[j]).results is Pooled ==> {
                                let sl = fresh[j].results->Pooled_0;
                                &&& sl.offset_spec() == gpos[t][j] % pl.capacity_spec()
                                &&& 0 < sl.len_spec()
                                &&& pl.read_pos() <= gpos[t][j]
                                &&& gpos[t][j] + sl.len_spec() <= pl.write_pos()
                            }
                        &&& pooled_answered(fresh, routed(evs.subrange(0, i as int), t, &pool0, n as int), &pool0, &pl, *kernel)
                    },
                signaled@.len() == n,
                forall|s: &[u32]| call_requires(*kernel, (s,)),
                forall|t: int|
                    0 <= t < n ==> {
                        let old_t = self0.published_on(t);
                        let new_t = #[trigger] self.published_on(t);
                        &&& old_t.len() <= new_t.len()
                        &&& new_t.subrange(0, old_t.len() as int) == old_t
                        &&& answered(
                            new_t.subrange(old_t.len() as int, new_t.len() as int),
                            routed(evs.subrange(0, i as int), t, &pool0, n as int),
                            &pool0,
                            *kernel,
                        )
                        &&& signaled@[t] == (old_t.len() < new_t.len())
                    },
            decreases events@.len() - i + if stop {
                0int
            } else {
                1int
            },
        {
            let ev = events[i];
            let ghost prev = *self;
            let ghost pools_before = result_pools@;
            let ghost req_pool_before = *request_pool;
            let ghost gpos_b = gpos;
            let ghost i0 = i as int;
            let outcome = self.answer_event(ev, request_pool, result_pools, kernel);
            let ghost answered_state = *self;
            match outcome {
                EventOutcome::NoRoom => {
                    self.pending = tail_of(&events, i);
                    stop = true;
                },
                EventOutcome::Answered => {
                    signaled.set(ev.io_thread_id as usize, true);
                },
                EventOutcome::Skipped => {},
            }
            proof {
              if outcome == EventOutcome::NoRoom {
                assert forall|t: int| 0 <= t < n implies #[trigger] self.published_on(t) == prev.published_on(t) by {
                    assert(self.response_producers == answered_state.response_producers);
                    assert(answered_state.published_on(t) == prev.published_on(t));
                }
              } else {
                let s1 = evs.subrange(0, i + 1);
                assert(s1.drop_last() =~= evs.subrange(0, i as int));
                assert(s1.last() == ev);
                assert forall|t: int| 0 <= t < n implies {
                    let old_t = self0.published_on(t);
                    let new_t = #[trigger] self.published_on(t);
                    &&& old_t.len() <= new_t.len()
                    &&& new_t.subrange(0, old_t.len() as int) == old_t
                    &&& outcome != EventOutcome::NoRoom ==> answered(
                        new_t.subrange(old_t.len() as int, new_t.len() as int),
                        routed(s1, t, &pool0, n as int),
                        &pool0,
                        *kernel,
                    )
                    &&& signaled@[t] == (old_t.len() < new_t.len())
                } by {
                    let old_t = self0.published_on(t);
                    let mid_t = prev.published_on(t);
                    let new_t = self.published_on(t);
                    assert(self.response_producers == answered_state.response_producers);
                    assert(answered_state.published_on(t) == if outcome == EventOutcome::Answered && t
                        == ev.io_thread_id {
                        mid_t.push(answered_state.published_on(t).last())
                    } else {
                        mid_t
                    });
                    if outcome == EventOutcome::NoRoom {
                        assert(new_t == mid_t);
                    } else if outcome == EventOutcome::Answered && t == ev.io_thread_id {
                        assert(new_t == mid_t.push(new_t.last()));
                        assert(new_t.subrange(old_t.len() as int, new_t.len() as int) =~= mid_t.subrange(
                            old_t.len() as int,
                            mid_t.len() as int,
                        ).push(new_t.last()));
                        assert(new_t.subrange(0, old_t.len() as int) =~= mid_t.subrange(0, old_t.len() as int));
                        lemma_answered_push(
                            mid_t.subrange(old_t.len() as int, mid_t.len() as int),
                            routed(evs.subrange(0, i as int), t, &pool0, n as int),
                            new_t.last(),
                            ev,
                            &pool0,
                            *kernel,
                        );
                    } else {
                        assert(new_t == mid_t);
                    }
                }
              }
            }
            if !stop {
                i += 1;
            }
            proof {
                let t0 = ev.io_thread_id as int;
                if outcome == EventOutcome::Answered {
                    let resp = self.published_on(t0).last();
                    let pb = pools_before[t0];
                    let v: int = if resp.results is Pooled {
                        let len = resp.results->Pooled_0.len_spec() as int;
                        pb.write_pos() + alloc_advance(pb.next_offset(), len, pb.capacity_spec()) - len
                    } else {
                        0
                    };
                    gpos = gpos.update(t0, gpos[t0].push(v));
                }
                let s0 = evs.subrange(0, i0);
                let s1 = evs.subrange(0, i as int);
                if !stop {
                    assert(s1.drop_last() =~= s0);
                    assert(s1.last() == ev);
                    pool0.lemma_wf();
                    req_pool_before.lemma_wf();
                }
                assert(self.response_producers == answered_state.response_producers);
                assert forall|t: int| 0 <= t < n implies {
                    let pl = #[trigger] result_pools@[t];
                    let fresh = fresh_on(*self, self0, t);
                    &&& pl.read_pos() == rp0[t].read_pos()
                    &&& pl.capacity_spec() == rp0[t].capacity_spec()
                    &&& gpos[t].len() == fresh.len()
                    &&& forall|j: int|
                        0 <= j < fresh.len() && (#[trigger] fresh[j]).results is Pooled ==> {
                            let sl = fresh[j].results->Pooled_0;
                            &&& sl.offset_spec() == gpos[t][j] % pl.capacity_spec()
                            &&& 0 < sl.len_spec()
                            &&& pl.read_pos() <= gpos[t][j]
                            &&& gpos[t][j] + sl.len_spec() <= pl.write_pos()
                        }
                    &&& pooled_answered(fresh, routed(evs.subrange(0, i as int), t, &pool0, n as int), &pool0, &pl, *kernel)
                } by {
                    let pl = result_pools@[t];
                    let pb = pools_before[t];
                    let fresh = fresh_on(*self, self0, t);
                    let fresh_b = fresh_on(prev, self0, t);
                    let old_len = self0.published_on(t).len() as int;
                    assert(answered_state.published_on(t) == self.published_on(t));
                    if outcome == EventOutcome::Answered && t == t0 {
                        let resp = self.published_on(t).last();
                        assert(self.published_on(t) == prev.published_on(t).push(resp));
                        assert(fresh =~= fresh_b.push(resp));
                        assert(routed(s1, t, &pool0, n as int) == routed(s0, t, &pool0, n as int).push(ev));
                        pb.lemma_wf();
                        pl.lemma_wf();
                        let c = pb.capacity_spec();
                        let rs = routed(s0, t, &pool0, n as int);
                        if resp.results is Pooled {
                            let sn = resp.results->Pooled_0;
                            let len = sn.len_spec() as int;
                            lemma_alloc_position(&pb, len);
                            let v = pb.write_pos() + alloc_advance(pb.next_offset(), len, c) - len;
                            assert(gpos[t] == gpos_b[t].push(v));
                            assert forall|j: int|
                                0 <= j < fresh.len() && (#[trigger] fresh[j]).results is Pooled implies {
                                    let sl = fresh[j].results->Pooled_0;
                                    &&& sl.offset_spec() == gpos[t][j] % pl.capacity_spec()
                                    &&& 0 < sl.len_spec()
                                    &&& pl.read_pos() <= gpos[t][j]
                                    &&& gpos[t][j] + sl.len_spec() <= pl.write_pos()
                                    &&& fresh[j].readable(&pl)
                                    &&& results_from(
                                        fresh[j].results_view(&pl),
                                        routed(s1, t, &pool0, n as int)[j],
                                        &pool0,
                                        *kernel,
                                    )
                                } by {
                                if j < fresh_b.len() {
                                    assert(fresh[j] == fresh_b[j]);
                                    assert(gpos[t][j] == gpos_b[t][j]);
                                    assert(routed(s1, t, &pool0, n as int)[j] == rs[j]);
                                    let sl = fresh[j].results->Pooled_0;
                                    lemma_ranges_disjoint(gpos_b[t][j], sl.len_spec() as int, v, len, c);
                                    assert(sl.contents(&pl) =~= sl.contents(&pb));
                                } else {
                                    assert(j == fresh_b.len());
                                    assert(fresh[j] == resp);
                                    assert(gpos[t][j] == v);
                                    assert(routed(s1, t, &pool0, n as int)[j] == ev);
                                }
                            }
                        } else {
                            assert(pl == pb);
                            assert(gpos[t] == gpos_b[t].push(0));
                            assert forall|j: int|
                                0 <= j < fresh.len() && (#[trigger] fresh[j]).results is Pooled implies {
                                    let sl = fresh[j].results->Pooled_0;
                                    &&& sl.offset_spec() == gpos[t][j] % pl.capacity_spec()
                                    &&& 0 < sl.len_spec()
                                    &&& pl.read_pos() <= gpos[t][j]
                                    &&& gpos[t][j] + sl.len_spec() <= pl.write_pos()
                                    &&& fresh[j].readable(&pl)
                                    &&& results_from(
                                        fresh[j].results_view(&pl),
                                        routed(s1, t, &pool0, n as int)[j],
                                        &pool0,
                                        *kernel,
                                    )
                                } by {
                                assert(j < fresh_b.len());
                                assert(fresh[j] == fresh_b[j]);
                                assert(gpos[t][j] == gpos_b[t][j]);
                                assert(routed(s1, t, &pool0, n as int)[j] == rs[j]);
                            }
                        }
                    } else {
                        assert(pl == pb);
                        assert(answered_state.published_on(t) == prev.published_on(t));
                        assert(fresh == fresh_b);
                        assert(gpos[t] == gpos_b[t]);
                        if !stop {
                            assert(routed(s1, t, &pool0, n as int) == routed(s0, t, &pool0, n as int));
                        }
                    }
                }
            }
        }
        proof {
            let before = delivered_requests(self0.poller);
            let after = delivered_requests(self.poller);
            if self0.pending@.len() == 0 {
                assert(after.subrange(before.len() as int, after.len() as int) =~= evs);
            }
            if !stop {
                assert(evs.subrange(i as int, evs.len() as int) =~= Seq::<InferenceEvent>::empty());
            }
        }
        Ok(signaled)
    }
}

} // verus!
