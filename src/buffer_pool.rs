use vstd::prelude::*;

verus! {

/// Why an arena allocation failed.
#[derive(Debug, Clone, Copy)]
pub enum AllocError {
    /// The request is longer than the whole arena.
    TooLarge { requested: usize, capacity: usize },
    /// The arena holds too much that has not been released (back-pressure).
    Exhausted { in_use: usize, capacity: usize },
}

/// Immutable handle on a range of an arena, returned by `freeze`. Releasing it
/// gives the range back to its arena once.
#[derive(Clone, Copy)]
pub struct PoolSlice {
    offset: usize,
    len: usize,
    /// The tail skipped at the end of the arena to place this range, given
    /// back with it.
    skipped: usize,
    freed: bool,
}

/// A range of an arena that is being written, before it is frozen.
pub struct PoolSliceMut {
    offset: usize,
    data: Vec<u32>,
    skipped: usize,
}

/// Ring arena of scalars (held as their 32-bit patterns) with a write cursor
/// and a read cursor: `write - read` scalars are in use. Allocation advances
/// the write cursor, skipping the tail when a request would straddle the end;
/// releasing a handle advances the read cursor by the handle's length.
pub struct BufferPool {
    data: Vec<u32>,
    capacity: usize,
    write_cursor: usize,
    read_cursor: usize,
    /// How far both cursors have been moved back in all.
    base: Ghost<int>,
}

/// Where an allocation of `len` starts when the write cursor stands at `offset`.
pub open spec fn alloc_start(offset: int, len: int, capacity: int) -> int {
    if offset + len > capacity {
        0
    } else {
        offset
    }
}

/// How far an allocation of `len` moves the write cursor: the skipped tail, if
/// any, and the length.
pub open spec fn alloc_advance(offset: int, len: int, capacity: int) -> int {
    if offset + len > capacity {
        (capacity - offset) + len
    } else {
        len
    }
}

impl PoolSlice {
    pub closed spec fn offset_spec(&self) -> nat {
        self.offset as nat
    }

    pub closed spec fn len_spec(&self) -> nat {
        self.len as nat
    }

    /// The tail skipped at the end of the arena to place this range.
    pub closed spec fn skipped_spec(&self) -> nat {
        self.skipped as nat
    }

    /// What releasing the handle gives back: its range and the tail skipped
    /// to place it.
    pub open spec fn release_amount(&self) -> int {
        (self.len_spec() + self.skipped_spec()) as int
    }

    /// Whether releasing the handle now gives anything back to `pool`.
    pub open spec fn releases_into(&self, pool: &BufferPool) -> bool {
        self.len_spec() > 0 && !self.freed_spec() && self.release_amount() <= pool.in_use()
    }

    /// Whether this handle has already given its range back.
    pub closed spec fn freed_spec(&self) -> bool {
        self.freed
    }

    /// Whether the handle's range lies inside `pool`.
    pub open spec fn fits(&self, pool: &BufferPool) -> bool {
        self.offset_spec() + self.len_spec() <= pool.capacity_spec()
    }

    /// The scalars of `pool` that the handle covers.
    pub open spec fn contents(&self, pool: &BufferPool) -> Seq<u32> {
        pool.contents().subrange(self.offset_spec() as int, (self.offset_spec() + self.len_spec()) as int)
    }

    /// The empty handle: it covers nothing and releases nothing.
    pub fn empty() -> (r: Self)
        ensures
            r.offset_spec() == 0,
            r.len_spec() == 0,
            r.skipped_spec() == 0,
            !r.freed_spec(),
    {
        PoolSlice { offset: 0, len: 0, skipped: 0, freed: false }
    }

    /// Start of the range in the arena.
    pub fn offset(&self) -> (r: usize)
        ensures
            r == self.offset_spec(),
    {
        self.offset
    }

    /// Number of scalars in the range.
    pub fn len(&self) -> (r: usize)
        ensures
            r == self.len_spec(),
    {
        self.len
    }

    /// The scalars of the range.
    pub fn as_slice<'a>(&self, pool: &'a BufferPool) -> (r: &'a [u32])
        requires
            pool.wf(),
            self.fits(pool),
        ensures
            r@ == self.contents(pool),
    {
        vstd::slice::slice_subrange(pool.data.as_slice(), self.offset, self.offset + self.len)
    }

    /// The `i`-th vector of `feature_dim` scalars in the range.
    pub fn vector<'a>(&self, pool: &'a BufferPool, i: usize, feature_dim: usize) -> (r: &'a [u32])
        requires
            pool.wf(),
            self.fits(pool),
            (i + 1) * feature_dim <= self.len_spec(),
        ensures
            r@ == self.contents(pool).subrange(i * feature_dim, (i + 1) * feature_dim),
    {
        proof {
            assert(0 <= i * feature_dim <= (i + 1) * feature_dim) by (nonlinear_arith);
            assert((i + 1) * feature_dim == i * feature_dim + feature_dim) by (nonlinear_arith);
        }
        let start = self.offset + i * feature_dim;
        let r = vstd::slice::slice_subrange(pool.data.as_slice(), start, start + feature_dim);
        proof {
            assert(r@ =~= self.contents(pool).subrange(i * feature_dim, (i + 1) * feature_dim));
        }
        r
    }

    /// Gives the range back to `pool` once: the first release of a non-empty
    /// handle that `pool` still counts as in use advances its read cursor by
    /// the handle's length and the tail skipped to place it; any other call
    /// changes nothing.
    pub fn release(&mut self, pool: &mut BufferPool)
        requires
            old(pool).wf(),
        ensures
            final(pool).wf(),
            final(self).offset_spec() == old(self).offset_spec(),
            final(self).len_spec() == old(self).len_spec(),
            final(self).skipped_spec() == old(self).skipped_spec(),
            final(pool).capacity_spec() == old(pool).capacity_spec(),
            final(pool).contents() == old(pool).contents(),
            final(pool).next_offset() == old(pool).next_offset(),
            final(pool).write_pos() == old(pool).write_pos(),
            if old(self).releases_into(&*old(pool)) {
                &&& final(self).freed_spec()
                &&& final(pool).read_pos() == old(pool).read_pos() + old(self).release_amount()
            } else {
                &&& final(self).freed_spec() == old(self).freed_spec()
                &&& final(pool).read_pos() == old(pool).read_pos()
            },
    {
        if self.len > 0 && !self.freed && self.skipped <= pool.write_cursor - pool.read_cursor && self.len
            <= pool.write_cursor - pool.read_cursor - self.skipped {
            self.freed = true;
            pool.advance_read(self.len + self.skipped);
        }
    }
}

impl PoolSliceMut {
    pub closed spec fn offset_spec(&self) -> nat {
        self.offset as nat
    }

    /// The tail skipped at the end of the arena to place this range.
    pub closed spec fn skipped_spec(&self) -> nat {
        self.skipped as nat
    }

    /// The scalars written so far.
    pub closed spec fn staged(&self) -> Seq<u32> {
        self.data@
    }

    /// Start of the range in the arena.
    pub fn offset(&self) -> (r: usize)
        ensures
            r == self.offset_spec(),
    {
        self.offset
    }

    /// The scalars of the range, for writing before `freeze`.
    pub fn as_mut_slice(&mut self) -> (r: &mut Vec<u32>)
        ensures
            r@ == old(self).staged(),
            final(self).offset_spec() == old(self).offset_spec(),
            final(self).skipped_spec() == old(self).skipped_spec(),
            final(self).staged() == final(r)@,
    {
        &mut self.data
    }

    /// Publishes the written scalars into `pool` and returns the immutable
    /// handle on the same range.
    pub fn freeze(self, pool: &mut BufferPool) -> (r: PoolSlice)
        requires
            old(pool).wf(),
            self.offset_spec() + self.staged().len() <= old(pool).capacity_spec(),
        ensures
            final(pool).wf(),
            final(pool).capacity_spec() == old(pool).capacity_spec(),
            final(pool).in_use() == old(pool).in_use(),
            final(pool).next_offset() == old(pool).next_offset(),
            final(pool).read_pos() == old(pool).read_pos(),
            final(pool).write_pos() == old(pool).write_pos(),
            final(pool).contents().len() == old(pool).contents().len(),
            forall|k: int|
                0 <= k < final(pool).contents().len() ==> final(pool).contents()[k] == if self.offset_spec()
                    <= k < self.offset_spec() + self.staged().len() {
                    self.staged()[k - self.offset_spec()]
                } else {
                    old(pool).contents()[k]
                },
            r.offset_spec() == self.offset_spec(),
            r.len_spec() == self.staged().len(),
            r.skipped_spec() == self.skipped_spec(),
            !r.freed_spec(),
            r.contents(final(pool)) == self.staged(),
    {
        let len = self.data.len();
        let mut i: usize = 0;
        while i < len
            invariant
                pool.wf(),
                len == self.data@.len(),
                self.offset + len <= pool.capacity,
                i <= len,
                pool.capacity == old(pool).capacity,
                pool.write_cursor == old(pool).write_cursor,
                pool.read_cursor == old(pool).read_cursor,
                pool.base == old(pool).base,
                pool.data@.len() == old(pool).data@.len(),
                forall|k: int|
                    0 <= k < pool.data@.len() ==> pool.data@[k] == if self.offset <= k < self.offset + i {
                        self.data@[k - self.offset]
                    } else {
                        old(pool).data@[k]
                    },
            decreases len - i,
        {
            pool.data.set(self.offset + i, self.data[i]);
            i += 1;
        }
        let r = PoolSlice { offset: self.offset, len, skipped: self.skipped, freed: false };
        proof {
            assert(r.contents(pool) =~= self.staged());
        }
        r
    }
}

impl BufferPool {
    /// The pool's internal invariant.
    pub closed spec fn wf(&self) -> bool {
        &&& self.data@.len() == self.capacity
        &&& 0 < self.capacity <= usize::MAX / 4
        &&& self.read_cursor <= self.write_cursor
        &&& self.read_cursor < self.capacity
        &&& self.write_cursor - self.read_cursor <= self.capacity
        &&& self.base@ % self.capacity as int == 0
    }

    pub closed spec fn capacity_spec(&self) -> int {
        self.capacity as int
    }

    /// Scalars counted as in use: `write - read`.
    pub closed spec fn in_use(&self) -> int {
        self.write_cursor - self.read_cursor
    }

    /// Offset at which the write cursor stands.
    pub closed spec fn next_offset(&self) -> int {
        self.write_cursor as int % self.capacity as int
    }

    /// Position of the write cursor, counted from some origin of the arena's
    /// own choosing; only differences and residues modulo the capacity matter.
    pub closed spec fn write_pos(&self) -> int {
        self.base@ + self.write_cursor
    }

    /// Position of the read cursor, on the same scale as `write_pos`.
    pub closed spec fn read_pos(&self) -> int {
        self.base@ + self.read_cursor
    }

    /// The arena's scalars.
    pub closed spec fn contents(&self) -> Seq<u32> {
        self.data@
    }

    /// Facts about the spec accessors that hold of every well-formed arena.
    pub proof fn lemma_wf(&self)
        requires
            self.wf(),
        ensures
            self.capacity_spec() > 0,
            self.contents().len() == self.capacity_spec(),
            0 <= self.in_use() <= self.capacity_spec(),
            self.in_use() == self.write_pos() - self.read_pos(),
            self.next_offset() == self.write_pos() % self.capacity_spec(),
            0 <= self.next_offset() < self.capacity_spec(),
    {
        vstd::arithmetic::div_mod::lemma_mod_adds(self.base@, self.write_cursor as int, self.capacity as int);
    }

    /// Creates an arena of `capacity` scalars, all zero. Zeroing the buffer
    /// touches every page up front, on the calling thread.
    pub fn new_boxed(capacity: usize) -> (r: Box<Self>)
        requires
            0 < capacity <= usize::MAX / 4,
        ensures
            r.wf(),
            r.capacity_spec() == capacity,
            r.in_use() == 0,
            r.next_offset() == 0,
            r.contents() == Seq::new(capacity as nat, |i: int| 0u32),
    {
        let data = vec![0u32; capacity];
        let r = BufferPool { data, capacity, write_cursor: 0, read_cursor: 0, base: Ghost(0) };
        proof {
            assert(r.contents() =~= Seq::new(capacity as nat, |i: int| 0u32));
            vstd::arithmetic::div_mod::lemma_small_mod(0, capacity as nat);
        }
        Box::new(r)
    }

    /// Whether an allocation of `len` is granted now: it is no longer than
    /// the arena, and it fits in what is free together with the tail it
    /// skips when it would straddle the end.
    pub open spec fn fits_now(&self, len: int) -> bool {
        len <= self.capacity_spec() && self.in_use() + alloc_advance(self.next_offset(), len, self.capacity_spec())
            <= self.capacity_spec()
    }

    /// Reserves `len` scalars. Fails with `TooLarge` when `len` exceeds the
    /// capacity, and with `Exhausted` when the range, with the tail it skips
    /// to start at offset 0 when it would straddle the end, does not fit in
    /// what is free. Otherwise the range starts at the write cursor's offset,
    /// or at 0 after the skipped tail.
    pub fn allocate(&mut self, len: usize) -> (r: Result<PoolSliceMut, AllocError>)
        requires
            old(self).wf(),
        ensures
            final(self).wf(),
            final(self).capacity_spec() == old(self).capacity_spec(),
            final(self).contents() == old(self).contents(),
            final(self).read_pos() == old(self).read_pos(),
            r is Err ==> *final(self) == *old(self),
            (r is Ok) == old(self).fits_now(len as int),
            len > old(self).capacity_spec() ==> r == Err::<PoolSliceMut, AllocError>(
                AllocError::TooLarge { requested: len, capacity: old(self).capacity_spec() as usize },
            ),
            len <= old(self).capacity_spec() && !old(self).fits_now(len as int) ==> r == Err::<
                PoolSliceMut,
                AllocError,
            >(
                AllocError::Exhausted {
                    in_use: old(self).in_use() as usize,
                    capacity: old(self).capacity_spec() as usize,
                },
            ),
            r is Ok ==> {
                let adv = alloc_advance(old(self).next_offset(), len as int, old(self).capacity_spec());
                &&& r->Ok_0.offset_spec() == alloc_start(old(self).next_offset(), len as int, old(self).capacity_spec())
                &&& r->Ok_0.skipped_spec() == adv - len
                &&& r->Ok_0.staged() == Seq::new(len as nat, |i: int| 0u32)
                &&& final(self).write_pos() == old(self).write_pos() + adv
            },
    {
        proof {
            self.lemma_wf();
        }
        if len > self.capacity {
            return Err(AllocError::TooLarge { requested: len, capacity: self.capacity });
        }
        let write = self.write_cursor;
        let in_use = write - self.read_cursor;
        let offset = write % self.capacity;
        let skipped = if offset + len > self.capacity {
            self.capacity - offset
        } else {
            0
        };
        if in_use + skipped + len > self.capacity {
            return Err(AllocError::Exhausted { in_use, capacity: self.capacity });
        }
        let start = if skipped > 0 {
            0
        } else {
            offset
        };
        self.write_cursor = write + skipped + len;
        let data = vec![0u32; len];
        proof {
            assert(data@ =~= Seq::new(len as nat, |i: int| 0u32));
        }
        Ok(PoolSliceMut { offset: start, data, skipped })
    }

    /// Number of scalars in the arena.
    pub fn capacity(&self) -> (r: usize)
        ensures
            r == self.capacity_spec(),
    {
        self.capacity
    }

    /// `(in_use, capacity)`, for diagnostics.
    pub fn utilization(&self) -> (r: (usize, usize))
        requires
            self.wf(),
        ensures
            r.0 == self.in_use(),
            r.1 == self.capacity_spec(),
    {
        (self.write_cursor - self.read_cursor, self.capacity)
    }

    /// Advances the read cursor by `len`. Both cursors are then moved back by
    /// the capacity once the read cursor has passed it, which keeps them small
    /// and changes neither their difference nor the write offset.
    fn advance_read(&mut self, len: usize)
        requires
            old(self).wf(),
            0 < len <= old(self).in_use(),
        ensures
            final(self).wf(),
            final(self).capacity == old(self).capacity,
            final(self).data == old(self).data,
            final(self).in_use() == old(self).in_use() - len,
            final(self).next_offset() == old(self).next_offset(),
            final(self).read_pos() == old(self).read_pos() + len,
            final(self).write_pos() == old(self).write_pos(),
    {
        self.read_cursor = self.read_cursor + len;
        self.rebase();
        self.rebase();
    }

    /// Moves both cursors back by the capacity when the read cursor has
    /// reached it.
    fn rebase(&mut self)
        requires
            old(self).data@.len() == old(self).capacity,
            0 < old(self).capacity <= usize::MAX / 4,
            old(self).read_cursor <= old(self).write_cursor,
            old(self).read_cursor < 3 * old(self).capacity,
            old(self).base@ % old(self).capacity as int == 0,
        ensures
            final(self).capacity == old(self).capacity,
            final(self).data == old(self).data,
            final(self).read_cursor <= final(self).write_cursor,
            final(self).write_cursor - final(self).read_cursor == old(self).write_cursor - old(self).read_cursor,
            old(self).read_cursor < 2 * old(self).capacity ==> final(self).read_cursor < old(self).capacity,
            final(self).read_cursor < 2 * old(self).capacity,
            final(self).base@ % final(self).capacity as int == 0,
            final(self).base@ + final(self).read_cursor == old(self).base@ + old(self).read_cursor,
            final(self).base@ + final(self).write_cursor == old(self).base@ + old(self).write_cursor,
            final(self).write_cursor as int % final(self).capacity as int == old(self).write_cursor as int
                % old(self).capacity as int,
    {
        if self.read_cursor >= self.capacity {
            self.read_cursor = self.read_cursor - self.capacity;
            self.write_cursor = self.write_cursor - self.capacity;
            self.base = Ghost(self.base@ + self.capacity);
            proof {
                let c = self.capacity as int;
                vstd::arithmetic::div_mod::lemma_mod_sub_multiples_vanish(self.write_cursor + c, c);
                vstd::arithmetic::div_mod::lemma_mod_add_multiples_vanish(old(self).base@, c);
            }
        }
    }
}

/// Two ranges placed one after the other within one turn of an arena of
/// `c` scalars, neither wrapping past its end, occupy disjoint offsets.
pub proof fn lemma_ranges_disjoint(p: int, l: int, v: int, len: int, c: int)
    requires
        c > 0,
        0 < l,
        0 < len,
        p + l <= v,
        v + len <= p + c,
        p % c + l <= c,
        v % c + len <= c,
    ensures
        p % c + l <= v % c || v % c + len <= p % c,
{
    let a = p % c;
    let start = v % c;
    vstd::arithmetic::div_mod::lemma_fundamental_div_mod(p, c);
    vstd::arithmetic::div_mod::lemma_fundamental_div_mod(v, c);
    let qp = p / c;
    let qv = v / c;
    let d = v - p;
    assert(d == (qv - qp) * c + (start - a)) by (nonlinear_arith)
        requires
            p == c * qp + a,
            v == c * qv + start,
            d == v - p,
    ;
    if start >= a {
        assert(qv - qp == 0) by (nonlinear_arith)
            requires
                d == (qv - qp) * c + (start - a),
                0 <= start - a < c,
                1 <= d <= c - 1,
                c > 0,
        ;
    } else {
        assert(qv - qp == 1) by (nonlinear_arith)
            requires
                d == (qv - qp) * c + (start - a),
                -c < start - a < 0,
                1 <= d <= c - 1,
                c > 0,
        ;
    }
}

/// Where an allocation of `len` lands: it starts at cursor position
/// `write_pos + advance - len`, whose offset is `alloc_start`, and it does
/// not run past the end of the arena.
pub proof fn lemma_alloc_position(pool: &BufferPool, len: int)
    requires
        pool.wf(),
        0 <= len <= pool.capacity_spec(),
    ensures
        ({
            let c = pool.capacity_spec();
            let start = alloc_start(pool.next_offset(), len, c);
            &&& (pool.write_pos() + alloc_advance(pool.next_offset(), len, c) - len) % c == start
            &&& 0 <= start
            &&& start + len <= c
            &&& alloc_advance(pool.next_offset(), len, c) >= len
        }),
{
    pool.lemma_wf();
    let c = pool.capacity_spec();
    let w = pool.write_pos();
    let off = pool.next_offset();
    vstd::arithmetic::div_mod::lemma_fundamental_div_mod(w, c);
    let qw = w / c;
    if off + len > c {
        assert(w + (c - off) == (qw + 1) * c) by (nonlinear_arith)
            requires
                w == c * qw + off,
        ;
        vstd::arithmetic::div_mod::lemma_mod_multiples_basic(qw + 1, c);
    }
}

/// A granted allocation does not overlap a live handle. The handle was
/// placed at cursor position `live_pos` (so at offset `live_pos % capacity`)
/// and is not yet released, so it lies between the read and the write cursor
/// (ranges are released in the order they were allocated).
pub proof fn lemma_alloc_disjoint_from_live(pool: &BufferPool, len: nat, live_pos: int, live_len: nat)
    requires
        pool.wf(),
        0 < len,
        0 < live_len,
        pool.read_pos() <= live_pos,
        live_pos + live_len <= pool.write_pos(),
        live_pos % pool.capacity_spec() + live_len <= pool.capacity_spec(),
        pool.fits_now(len as int),
    ensures
        ({
            let start = alloc_start(pool.next_offset(), len as int, pool.capacity_spec());
            let live = live_pos % pool.capacity_spec();
            start + len <= live || live + live_len <= start
        }),
{
    pool.lemma_wf();
    let c = pool.capacity_spec();
    lemma_alloc_position(pool, len as int);
    let v = pool.write_pos() + alloc_advance(pool.next_offset(), len as int, c) - len;
    lemma_ranges_disjoint(live_pos, live_len as int, v, len as int, c);
}

/// One step on an arena: an allocation of `len` scalars, or the release of
/// a live handle of `len` scalars.
pub enum PoolOp {
    Alloc(nat),
    Release(nat),
}

/// Whether an allocation of `len` is granted at cursors `(read, write)`, as
/// `BufferPool::fits_now` says.
pub open spec fn alloc_granted(read: int, write: int, cap: int, len: int) -> bool {
    len <= cap && (write - read) + alloc_advance(write % cap, len, cap) <= cap
}

/// The cursor positions `(read, write)` after `ops`, moved as `allocate` and
/// `release` move them; a refused allocation moves nothing.
pub open spec fn cursors_after(read: int, write: int, cap: int, ops: Seq<PoolOp>) -> (int, int)
    decreases ops.len(),
{
    if ops.len() == 0 {
        (read, write)
    } else {
        let (r, w) = cursors_after(read, write, cap, ops.drop_last());
        match ops.last() {
            PoolOp::Alloc(len) => if alloc_granted(r, w, cap, len as int) {
                (r, w + alloc_advance(w % cap, len as int, cap))
            } else {
                (r, w)
            },
            PoolOp::Release(len) => (r + len, w),
        }
    }
}

/// Scalars allocated by `ops` less scalars released.
pub open spec fn net_of(ops: Seq<PoolOp>) -> int
    decreases ops.len(),
{
    if ops.len() == 0 {
        0
    } else {
        net_of(ops.drop_last()) + match ops.last() {
            PoolOp::Alloc(len) => len as int,
            PoolOp::Release(len) => -(len as int),
        }
    }
}

/// Whether every allocation of `ops`, in the state it meets, fits before
/// the end of the arena (so skips no tail).
pub open spec fn skips_no_tail(read: int, write: int, cap: int, ops: Seq<PoolOp>) -> bool {
    forall|k: int|
        0 <= k < ops.len() ==> match #[trigger] ops[k] {
            PoolOp::Alloc(len) => {
                let (r, w) = cursors_after(read, write, cap, ops.subrange(0, k));
                w % cap + len <= cap
            },
            PoolOp::Release(_) => true,
        }
}

/// An arena never reports exhaustion while the net total it holds stays
/// within its capacity: from cursors with `in_use` scalars in use, if the net
/// total after every prefix of `ops` fits and no allocation skips a tail,
/// every allocation is granted, the arena then counts exactly the net total
/// in use, and a further allocation is refused exactly when the total, the
/// tail it would skip and its length exceed the capacity.
pub proof fn lemma_exhaustion_tracks_net(read: int, write: int, cap: int, ops: Seq<PoolOp>, len: nat)
    requires
        0 < cap,
        read <= write,
        forall|k: int| 0 <= k <= ops.len() ==> 0 <= (write - read) + #[trigger] net_of(ops.subrange(0, k)) <= cap,
        skips_no_tail(read, write, cap, ops),
    ensures
        forall|k: int|
            0 <= k < ops.len() ==> (#[trigger] ops[k] matches PoolOp::Alloc(l) ==> {
                let (r, w) = cursors_after(read, write, cap, ops.subrange(0, k));
                alloc_granted(r, w, cap, l as int)
            }),
        ({
            let (r, w) = cursors_after(read, write, cap, ops);
            &&& w - r == (write - read) + net_of(ops)
            &&& len <= cap ==> (alloc_granted(r, w, cap, len as int) <==> (write - read) + net_of(ops) + alloc_advance(
                w % cap,
                len as int,
                cap,
            ) <= cap)
        }),
    decreases ops.len(),
{
    if ops.len() > 0 {
        let prev = ops.drop_last();
        assert forall|k: int| 0 <= k <= prev.len() implies 0 <= (write - read) + #[trigger] net_of(prev.subrange(0, k)) <= cap by {
            assert(prev.subrange(0, k) =~= ops.subrange(0, k));
        }
        assert forall|k: int| 0 <= k < prev.len() implies match #[trigger] prev[k] {
            PoolOp::Alloc(l) => {
                let (r, w) = cursors_after(read, write, cap, prev.subrange(0, k));
                w % cap + l <= cap
            },
            PoolOp::Release(_) => true,
        } by {
            assert(prev[k] == ops[k]);
            assert(prev.subrange(0, k) =~= ops.subrange(0, k));
        }
        lemma_exhaustion_tracks_net(read, write, cap, prev, len);
        assert(ops.subrange(0, ops.len() as int) =~= ops);
        assert(ops.subrange(0, prev.len() as int) =~= prev);
        let (r, w) = cursors_after(read, write, cap, prev);
        assert(0 <= (write - read) + net_of(ops) <= cap);
        if let PoolOp::Alloc(l) = ops.last() {
            assert(ops[prev.len() as int] == ops.last());
            assert(w % cap + l <= cap);
        }
        assert forall|k: int| 0 <= k < ops.len() implies (#[trigger] ops[k] matches PoolOp::Alloc(l) ==> {
            let (r2, w2) = cursors_after(read, write, cap, ops.subrange(0, k));
            alloc_granted(r2, w2, cap, l as int)
        }) by {
            if k < prev.len() {
                assert(prev[k] == ops[k]);
                assert(prev.subrange(0, k) =~= ops.subrange(0, k));
            }
        }
    }
}

} // verus!
