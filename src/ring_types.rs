use vstd::prelude::*;

use crate::buffer_pool::{alloc_advance, alloc_start, BufferPool, PoolSlice};
use crate::constants::{FEATURE_DIM, INLINE_RESULT_CAPACITY, MAX_VECTORS_PER_REQUEST};

verus! {

/// Slot of the request ring: routing data and the arena handle on the
/// request's features.
#[derive(Clone, Copy)]
pub struct InferenceEvent {
    pub io_thread_id: u8,
    pub conn_id: u16,
    pub request_seq: u64,
    pub num_vectors: u8,
    pub features: PoolSlice,
}

impl InferenceEvent {
    /// An unused slot, as the ring is filled with before first use.
    pub fn factory() -> (r: Self)
        ensures
            r.io_thread_id == 0,
            r.conn_id == 0,
            r.request_seq == 0,
            r.num_vectors == 0,
            r.features.len_spec() == 0,
            !r.features.freed_spec(),
    {
        InferenceEvent { io_thread_id: 0, conn_id: 0, request_seq: 0, num_vectors: 0, features: PoolSlice::empty() }
    }

    /// Writes `ev` into this slot, field by field.
    pub fn store(&mut self, ev: InferenceEvent)
        ensures
            *final(self) == ev,
    {
        *self = ev;
    }

    /// Whether the event describes `num_vectors` whole vectors of features
    /// inside `pool`, as the request flow publishes them.
    pub open spec fn well_formed(&self, pool: &BufferPool) -> bool {
        &&& self.num_vectors <= MAX_VECTORS_PER_REQUEST
        &&& self.features.len_spec() == self.num_vectors * FEATURE_DIM
        &&& self.features.fits(pool)
    }

    /// The features of vector `i`.
    pub fn vector<'a>(&self, pool: &'a BufferPool, i: usize) -> (r: &'a [u32])
        requires
            pool.wf(),
            self.features.fits(pool),
            (i + 1) * FEATURE_DIM <= self.features.len_spec(),
        ensures
            r@ == self.features.contents(pool).subrange(i * FEATURE_DIM, (i + 1) * FEATURE_DIM),
    {
        self.features.vector(pool, i, FEATURE_DIM)
    }
}

/// Where the results of a response are kept.
#[derive(Clone, Copy)]
pub enum ResultStorage {
    /// Up to `INLINE_RESULT_CAPACITY` results, inside the record.
    Inline([u32; INLINE_RESULT_CAPACITY]),
    /// More results, in a range of a response arena.
    Pooled(PoolSlice),
}

/// Slot of the response ring.
#[derive(Clone, Copy)]
pub struct InferenceResponse {
    pub request_seq: u64,
    pub conn_id: u16,
    pub num_vectors: u8,
    pub results: ResultStorage,
}

impl InferenceResponse {
    /// Whether the results can be read: inline ones within the record's
    /// capacity, pooled ones as a range of `pool` of the right length.
    pub open spec fn readable(&self, pool: &BufferPool) -> bool {
        match self.results {
            ResultStorage::Inline(_) => self.num_vectors <= INLINE_RESULT_CAPACITY,
            ResultStorage::Pooled(s) => s.fits(pool) && s.len_spec() == self.num_vectors,
        }
    }

    /// The results the response carries.
    pub open spec fn results_view(&self, pool: &BufferPool) -> Seq<u32> {
        match self.results {
            ResultStorage::Inline(a) => a@.subrange(0, self.num_vectors as int),
            ResultStorage::Pooled(s) => s.contents(pool),
        }
    }

    /// The inline results, when the results are kept in the record.
    pub open spec fn inline_results(&self) -> Seq<u32> {
        match self.results {
            ResultStorage::Inline(a) => a@.subrange(0, self.num_vectors as int),
            ResultStorage::Pooled(_) => Seq::empty(),
        }
    }

    /// Builds a response. Up to `INLINE_RESULT_CAPACITY` results are kept in
    /// the record and `pool` is not touched; more are copied into a range of
    /// `pool`, which is then required, and fail when it has no room.
    pub fn with_results(conn_id: u16, request_seq: u64, results: &[u32], pool: Option<&mut BufferPool>) -> (r:
        Result<Self, &'static str>)
        requires
            results@.len() <= u8::MAX,
            pool is Some ==> pool->Some_0.wf(),
        ensures
            r is Ok ==> {
                &&& r->Ok_0.conn_id == conn_id
                &&& r->Ok_0.request_seq == request_seq
                &&& r->Ok_0.num_vectors == results@.len()
            },
            results@.len() <= INLINE_RESULT_CAPACITY ==> {
                &&& r is Ok
                &&& r->Ok_0.results is Inline
                &&& r->Ok_0.inline_results() == results@
            },
            results@.len() > INLINE_RESULT_CAPACITY ==> (r is Ok ==> r->Ok_0.results is Pooled),
            results@.len() > INLINE_RESULT_CAPACITY && pool is None ==> r is Err,
            pool is Some ==> final(pool->Some_0).wf(),
            pool is Some && results@.len() <= INLINE_RESULT_CAPACITY ==> *final(pool->Some_0) == *pool->Some_0,
            pool is Some && results@.len() > INLINE_RESULT_CAPACITY ==> {
                let p = *pool->Some_0;
                let q = *final(pool->Some_0);
                &&& q.capacity_spec() == p.capacity_spec()
                &&& q.read_pos() == p.read_pos()
                &&& (r is Err <==> !p.fits_now(results@.len() as int))
                &&& r is Err ==> q == p
                &&& r is Ok ==> {
                    let s = r->Ok_0.results->Pooled_0;
                    &&& r->Ok_0.readable(&q)
                    &&& r->Ok_0.results_view(&q) == results@
                    &&& s.offset_spec() == alloc_start(p.next_offset(), results@.len() as int, p.capacity_spec())
                    &&& q.contents().len() == p.contents().len()
                    &&& forall|k: int|
                        0 <= k < q.contents().len() && !(s.offset_spec() <= k < s.offset_spec() + s.len_spec())
                            ==> #[trigger] q.contents()[k] == p.contents()[k]
                    &&& q.write_pos() == p.write_pos() + alloc_advance(
                        p.next_offset(),
                        results@.len() as int,
                        p.capacity_spec(),
                    )
                }
            },
    {
        let num_vectors = results.len() as u8;
        if results.len() <= INLINE_RESULT_CAPACITY {
            let mut inline_array = [0u32; INLINE_RESULT_CAPACITY];
            let mut i: usize = 0;
            while i < results.len()
                invariant
                    i <= results@.len() <= INLINE_RESULT_CAPACITY,
                    forall|k: int| 0 <= k < i ==> inline_array@[k] == results@[k],
                decreases results@.len() - i,
            {
                inline_array[i] = results[i];
                i += 1;
            }
            let r = InferenceResponse { conn_id, request_seq, num_vectors, results: ResultStorage::Inline(inline_array) };
            proof {
                assert(r.inline_results() =~= results@);
            }
            Ok(r)
        } else {
            match pool {
                None => Err("pool required for large results"),
                Some(pool) => {
                    proof {
                        pool.lemma_wf();
                    }
                    match pool.allocate(results.len()) {
                        Err(_) => Err("pool allocation failed"),
                        Ok(mut slice) => {
                            let staged = slice.as_mut_slice();
                            let mut i: usize = 0;
                            while i < results.len()
                                invariant
                                    i <= results@.len(),
                                    staged@.len() == results@.len(),
                                    forall|k: int| 0 <= k < i ==> staged@[k] == results@[k],
                                decreases results@.len() - i,
                            {
                                staged[i] = results[i];
                                i += 1;
                            }
                            proof {
                                assert(staged@ =~= results@);
                            }
                            let handle = slice.freeze(pool);
                            Ok(InferenceResponse { conn_id, request_seq, num_vectors, results: ResultStorage::Pooled(handle) })
                        },
                    }
                },
            }
        }
    }

    /// Writes `resp` into this slot, field by field.
    pub fn store(&mut self, resp: InferenceResponse)
        ensures
            *final(self) == resp,
    {
        *self = resp;
    }

    /// The results, from the record or from `pool`.
    pub fn results_slice<'a>(&'a self, pool: &'a BufferPool) -> (r: &'a [u32])
        requires
            pool.wf(),
            self.readable(pool),
        ensures
            r@ == self.results_view(pool),
    {
        match &self.results {
            ResultStorage::Inline(arr) => vstd::slice::slice_subrange(arr.as_slice(), 0, self.num_vectors as usize),
            ResultStorage::Pooled(slice) => slice.as_slice(pool),
        }
    }

    /// An empty response, as the ring is filled with before first use.
    pub fn new() -> (r: Self)
        ensures
            r.conn_id == 0,
            r.request_seq == 0,
            r.num_vectors == 0,
            r.results is Inline,
    {
        InferenceResponse { conn_id: 0, request_seq: 0, num_vectors: 0, results: ResultStorage::Inline([0u32; INLINE_RESULT_CAPACITY]) }
    }
}

} // verus!
