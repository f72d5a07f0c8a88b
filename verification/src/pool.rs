use vstd::prelude::*;
use crate::buffer::{blank_pixels, BufferView, PixelBuffer};
use crate::format::Resolution;

verus! {

/// Why the pool handed out no buffer.
#[derive(Clone, Copy, Debug, PartialEq, Eq, Structural)]
pub enum AcquireError {
    /// Every buffer is checked out and the pool may not grow: the caller
    /// waits for a release.
    Exhausted,
    /// No allocation can hold a frame of the requested shape.
    Unrepresentable,
}

/// The pool as contracts see it.
pub struct PoolView {
    /// The most buffers the pool may have, idle and checked out together.
    pub capacity: nat,
    /// The shape of every buffer the pool currently owns or has lent.
    pub shape: Resolution,
    /// The idle buffers, the one that has waited longest first.
    pub free: Seq<BufferView>,
    /// The identities of the buffers checked out, in the order they left.
    pub lent: Seq<u64>,
    /// The identity the next new buffer gets.
    pub next_id: u64,
}

impl PoolView {
    /// Number of buffers that belong to the pool.
    pub open spec fn size(self) -> nat {
        self.free.len() + self.lent.len()
    }

    /// The pool is within its capacity, every idle buffer is whole and of
    /// the pool's shape, and no identity occurs twice among the idle and the
    /// lent buffers, nor is any as high as the next one to be given.
    pub open spec fn wf(self) -> bool {
        &&& self.size() <= self.capacity
        &&& forall|i: int|
            0 <= i < self.free.len() ==> {
                &&& (#[trigger] self.free[i]).resolution == self.shape
                &&& self.free[i].wf()
                &&& self.free[i].id < self.next_id
            }
        &&& forall|i: int| 0 <= i < self.lent.len() ==> #[trigger] self.lent[i] < self.next_id
        &&& forall|i: int, j: int|
            0 <= i < j < self.free.len() ==> (#[trigger] self.free[i]).id != (
            #[trigger] self.free[j]).id
        &&& forall|i: int, j: int|
            0 <= i < j < self.lent.len() ==> #[trigger] self.lent[i] != #[trigger] self.lent[j]
        &&& forall|i: int, j: int|
            0 <= i < self.free.len() && 0 <= j < self.lent.len() ==> (#[trigger] self.free[i]).id
                != #[trigger] self.lent[j]
    }

    /// An empty pool that may grow to `capacity` buffers.
    pub open spec fn empty(capacity: nat) -> PoolView {
        PoolView {
            capacity,
            shape: Resolution { width: 0, height: 0 },
            free: Seq::empty(),
            lent: Seq::empty(),
            next_id: 0,
        }
    }

    /// The pool made ready for buffers of `shape`. A pool that already has
    /// this shape is left alone. Otherwise every buffer it has stops being a
    /// member: the idle ones are discarded, the ones checked out are
    /// forgotten and will be discarded when they come back.
    pub open spec fn reshape(self, shape: Resolution) -> PoolView {
        if shape == self.shape {
            self
        } else {
            PoolView { shape, free: Seq::empty(), lent: Seq::empty(), ..self }
        }
    }

    /// Whether the pool may allocate one more buffer.
    pub open spec fn can_grow(self) -> bool {
        self.size() < self.capacity && self.next_id < u64::MAX
    }

    /// Checking out a buffer of the pool's shape: the idle buffer that has
    /// waited longest, or else a new black one if the pool may still grow.
    pub open spec fn reuse_or_allocate(self) -> (PoolView, Result<BufferView, AcquireError>) {
        if self.free.len() > 0 {
            (
                PoolView {
                    free: self.free.remove(0),
                    lent: self.lent.push(self.free[0].id),
                    ..self
                },
                Ok(self.free[0]),
            )
        } else if !self.shape.representable() {
            (self, Err(AcquireError::Unrepresentable))
        } else if !self.can_grow() {
            (self, Err(AcquireError::Exhausted))
        } else {
            (
                PoolView {
                    lent: self.lent.push(self.next_id),
                    next_id: (self.next_id + 1) as u64,
                    ..self
                },
                Ok(
                    BufferView {
                        id: self.next_id,
                        resolution: self.shape,
                        pixels: blank_pixels(self.shape),
                    },
                ),
            )
        }
    }

    /// Checking out a buffer of `shape`: the pool first takes that shape,
    /// then reuses or allocates.
    pub open spec fn acquire(self, shape: Resolution) -> (PoolView, Result<
        BufferView,
        AcquireError,
    >) {
        self.reshape(shape).reuse_or_allocate()
    }

    /// Whether a returned buffer is one the pool has lent and still wants.
    pub open spec fn owns(self, buffer: BufferView) -> bool {
        buffer.resolution == self.shape && buffer.wf() && self.lent.contains(buffer.id)
    }

    /// Giving a buffer back: one the pool owns becomes idle again, behind
    /// those already idle; any other is discarded.
    pub open spec fn release(self, buffer: BufferView) -> (PoolView, bool) {
        if self.owns(buffer) {
            (
                PoolView {
                    free: self.free.push(buffer),
                    lent: self.lent.remove(self.lent.index_of(buffer.id)),
                    ..self
                },
                true,
            )
        } else {
            (self, false)
        }
    }
}

impl PoolView {
    /// Reshaping keeps a pool well formed.
    pub proof fn lemma_reshape_wf(self, shape: Resolution)
        requires
            self.wf(),
        ensures
            self.reshape(shape).wf(),
            self.reshape(shape).shape == shape,
            self.reshape(shape).capacity == self.capacity,
            self.reshape(shape).next_id == self.next_id,
    {
    }

    /// Checking out keeps a pool well formed, and what it hands out is
    /// whole, of the pool's shape, and on the list of lent buffers.
    pub proof fn lemma_reuse_or_allocate_wf(self)
        requires
            self.wf(),
        ensures
            self.reuse_or_allocate().0.wf(),
            self.reuse_or_allocate().0.shape == self.shape,
            self.reuse_or_allocate().0.capacity == self.capacity,
            self.reuse_or_allocate().1 matches Ok(buffer) ==> {
                &&& buffer.wf()
                &&& buffer.resolution == self.shape
                &&& self.reuse_or_allocate().0.lent.contains(buffer.id)
            },
    {
        let after = self.reuse_or_allocate().0;
        if self.reuse_or_allocate().1 is Ok {
            // Either way one identity joins the end of the lent list, and
            // it is none of those already there.
            let id = self.reuse_or_allocate().1->Ok_0.id;
            assert(after.lent == self.lent.push(id));
            assert(after.lent[self.lent.len() as int] == id);
            assert forall|i: int, j: int| 0 <= i < j < after.lent.len() implies (
            #[trigger] after.lent[i]) != #[trigger] after.lent[j] by {
                assert(after.lent[i] == self.lent[i]);
                if j < self.lent.len() {
                    assert(after.lent[j] == self.lent[j]);
                }
            }
        }
        if self.free.len() > 0 {
            assert(self.free[0].resolution == self.shape);
            assert forall|i: int| 0 <= i < after.free.len() implies {
                &&& (#[trigger] after.free[i]).resolution == after.shape
                &&& after.free[i].wf()
                &&& after.free[i].id < after.next_id
            } by {
                assert(after.free[i] == self.free[i + 1]);
            }
            assert forall|i: int, j: int| 0 <= i < j < after.free.len() implies (
            #[trigger] after.free[i]).id != (#[trigger] after.free[j]).id by {
                assert(after.free[i] == self.free[i + 1]);
                assert(after.free[j] == self.free[j + 1]);
            }
            assert forall|i: int, j: int|
                0 <= i < after.free.len() && 0 <= j < after.lent.len() implies (
            #[trigger] after.free[i]).id != #[trigger] after.lent[j] by {
                assert(after.free[i] == self.free[i + 1]);
                if j < self.lent.len() {
                    assert(after.lent[j] == self.lent[j]);
                }
            }
        }
    }

    /// The same of checking out at a given shape.
    pub proof fn lemma_acquire_wf(self, shape: Resolution)
        requires
            self.wf(),
        ensures
            self.acquire(shape).0.wf(),
            self.acquire(shape).0.shape == shape,
            self.acquire(shape).0.capacity == self.capacity,
            self.acquire(shape).1 matches Ok(buffer) ==> {
                &&& buffer.wf()
                &&& buffer.resolution == shape
                &&& self.acquire(shape).0.lent.contains(buffer.id)
            },
    {
        self.lemma_reshape_wf(shape);
        self.reshape(shape).lemma_reuse_or_allocate_wf();
    }

    /// Taking a buffer back keeps a pool well formed and never changes how
    /// many buffers belong to it.
    pub proof fn lemma_release_wf(self, buffer: BufferView)
        requires
            self.wf(),
        ensures
            self.release(buffer).0.wf(),
            self.release(buffer).0.size() == self.size(),
            self.release(buffer).0.shape == self.shape,
            self.release(buffer).0.capacity == self.capacity,
            self.release(buffer).0.next_id == self.next_id,
    {
        if self.owns(buffer) {
            let after = self.release(buffer).0;
            let k = self.lent.index_of(buffer.id);
            assert(0 <= k < self.lent.len() && self.lent[k] == buffer.id);
            assert forall|i: int| 0 <= i < after.lent.len() implies #[trigger] after.lent[i]
                < after.next_id by {
                let a = if i < k { i } else { i + 1 };
                assert(after.lent[i] == self.lent[a]);
            }
            assert forall|i: int, j: int| 0 <= i < j < after.lent.len() implies (
            #[trigger] after.lent[i]) != #[trigger] after.lent[j] by {
                let a = if i < k { i } else { i + 1 };
                let b = if j < k { j } else { j + 1 };
                assert(after.lent[i] == self.lent[a]);
                assert(after.lent[j] == self.lent[b]);
            }
            assert forall|i: int, j: int| 0 <= i < j < after.free.len() implies (
            #[trigger] after.free[i]).id != (#[trigger] after.free[j]).id by {
                assert(after.free[i] == self.free[i]);
                if j < self.free.len() {
                    assert(after.free[j] == self.free[j]);
                } else {
                    assert(self.free[i].id != self.lent[k]);
                }
            }
            assert forall|i: int, j: int|
                0 <= i < after.free.len() && 0 <= j < after.lent.len() implies (
            #[trigger] after.free[i]).id != #[trigger] after.lent[j] by {
                let b = if j < k { j } else { j + 1 };
                assert(after.lent[j] == self.lent[b]);
                if i < self.free.len() {
                    assert(after.free[i] == self.free[i]);
                } else if b < k {
                    assert(self.lent[b] != self.lent[k]);
                } else {
                    assert(self.lent[k] != self.lent[b]);
                }
            }
            assert forall|i: int| 0 <= i < after.free.len() implies {
                &&& (#[trigger] after.free[i]).resolution == after.shape
                &&& after.free[i].wf()
                &&& after.free[i].id < after.next_id
            } by {
                if i < self.free.len() {
                    assert(after.free[i] == self.free[i]);
                } else {
                    assert(self.lent[k] < self.next_id);
                }
            }
        }
    }
}


impl PoolView {
    /// When the pool is exhausted, one returned buffer lets exactly one
    /// request through: the next request gets that very buffer, and the one
    /// after it finds the pool exhausted again.
    pub proof fn lemma_release_unblocks_one(self, buffer: BufferView)
        requires
            self.wf(),
            self.reuse_or_allocate().1 == Err::<BufferView, AcquireError>(AcquireError::Exhausted),
            self.owns(buffer),
        ensures
            self.release(buffer).0.reuse_or_allocate().1 == Ok::<BufferView, AcquireError>(buffer),
            self.release(buffer).0.reuse_or_allocate().0.reuse_or_allocate().1 == Err::<
                BufferView,
                AcquireError,
            >(AcquireError::Exhausted),
    {
        let back = self.release(buffer).0;
        let again = back.reuse_or_allocate().0;
        assert(back.free =~= seq![buffer]);
        assert(again.free =~= Seq::empty());
    }
}

/// A bounded set of reusable pixel buffers. A buffer is either idle inside
/// the pool or checked out to exactly one holder; it comes back only when the
/// holder hands the value in.
#[derive(Debug)]
pub struct BufferPool {
    capacity: usize,
    shape: Resolution,
    free: Vec<PixelBuffer>,
    lent: Vec<u64>,
    next_id: u64,
}

impl View for BufferPool {
    type V = PoolView;

    closed spec fn view(&self) -> PoolView {
        PoolView {
            capacity: self.capacity as nat,
            shape: self.shape,
            free: self.free@.map_values(|b: PixelBuffer| b@),
            lent: self.lent@,
            next_id: self.next_id,
        }
    }
}

impl BufferPool {
    /// Every pool is well formed, whatever was done with it.
    #[verifier::type_invariant]
    pub open spec fn inv(self) -> bool {
        self@.wf()
    }

    pub fn new(capacity: usize) -> (pool: BufferPool)
        ensures
            pool@ == PoolView::empty(capacity as nat),
    {
        let free: Vec<PixelBuffer> = Vec::new();
        assert(free@.map_values(|b: PixelBuffer| b@) =~= Seq::empty());
        BufferPool {
            capacity,
            shape: Resolution { width: 0, height: 0 },
            free,
            lent: Vec::new(),
            next_id: 0,
        }
    }

    pub fn capacity(&self) -> (capacity: usize)
        ensures
            capacity == self@.capacity,
    {
        self.capacity
    }

    pub fn shape(&self) -> (shape: Resolution)
        ensures
            shape == self@.shape,
    {
        self.shape
    }

    /// Number of buffers that belong to the pool, idle or checked out.
    pub fn size(&self) -> (size: usize)
        ensures
            size == self@.size(),
            size <= self@.capacity,
    {
        proof {
            use_type_invariant(self);
        }
        self.free.len() + self.lent.len()
    }

    /// Number of idle buffers.
    pub fn idle(&self) -> (idle: usize)
        ensures
            idle == self@.free.len(),
    {
        self.free.len()
    }

    /// Gives the pool the shape of the device that is about to stream.
    pub fn reshape(&mut self, width: u32, height: u32)
        ensures
            final(self)@ == old(self)@.reshape(Resolution { width, height }),
    {
        if width != self.shape.width || height != self.shape.height {
            let free: Vec<PixelBuffer> = Vec::new();
            assert(free@.map_values(|b: PixelBuffer| b@) =~= Seq::empty());
            *self = BufferPool {
                capacity: self.capacity,
                shape: Resolution { width, height },
                free,
                lent: Vec::new(),
                next_id: self.next_id,
            };
        }
    }

    /// Checks out a buffer of the pool's shape for exclusive writing.
    pub fn reuse_or_allocate(&mut self) -> (res: Result<PixelBuffer, AcquireError>)
        ensures
            final(self)@ == old(self)@.reuse_or_allocate().0,
            match res {
                Ok(buffer) => old(self)@.reuse_or_allocate().1 == Ok::<BufferView, AcquireError>(
                    buffer@,
                ),
                Err(e) => old(self)@.reuse_or_allocate().1 == Err::<BufferView, AcquireError>(e),
            },
    {
        let mut taken = BufferPool::new(0);
        proof {
            use_type_invariant(&*self);
            use_type_invariant(&taken);
            old(self)@.lemma_reuse_or_allocate_wf();
        }
        std::mem::swap(self, &mut taken);
        let ghost pool = taken@;
        let BufferPool { capacity, shape, mut free, mut lent, mut next_id } = taken;
        let res = if free.len() > 0 {
            let buffer = free.remove(0);
            lent.push(buffer.id());
            assert(free@.map_values(|b: PixelBuffer| b@) =~= pool.free.remove(0));
            Ok(buffer)
        } else if shape.checked_byte_len().is_none() {
            Err(AcquireError::Unrepresentable)
        } else if lent.len() >= capacity || next_id == u64::MAX {
            Err(AcquireError::Exhausted)
        } else {
            let buffer = PixelBuffer::blank(next_id, shape);
            lent.push(next_id);
            next_id = next_id + 1;
            Ok(buffer)
        };
        *self = BufferPool { capacity, shape, free, lent, next_id };
        res
    }

    /// Checks out a buffer of the given shape for exclusive writing.
    pub fn acquire(&mut self, width: u32, height: u32) -> (res: Result<PixelBuffer, AcquireError>)
        ensures
            final(self)@ == old(self)@.acquire(Resolution { width, height }).0,
            match res {
                Ok(buffer) => old(self)@.acquire(Resolution { width, height }).1 == Ok::<
                    BufferView,
                    AcquireError,
                >(buffer@),
                Err(e) => old(self)@.acquire(Resolution { width, height }).1 == Err::<
                    BufferView,
                    AcquireError,
                >(e),
            },
    {
        self.reshape(width, height);
        self.reuse_or_allocate()
    }

    /// Takes a buffer back from its holder. Returns whether the buffer became
    /// idle in the pool; a buffer the pool does not own is dropped.
    pub fn release(&mut self, buffer: PixelBuffer) -> (kept: bool)
        ensures
            final(self)@ == old(self)@.release(buffer@).0,
            kept == old(self)@.release(buffer@).1,
    {
        proof {
            use_type_invariant(&*self);
            use_type_invariant(&buffer);
            old(self)@.lemma_release_wf(buffer@);
        }
        let ghost pool = self@;
        let id: u64 = buffer.id();
        let shape = buffer.resolution();
        if shape.width != self.shape.width || shape.height != self.shape.height {
            return false;
        }
        let mut k: usize = 0;
        while k < self.lent.len() && self.lent[k] != id
            invariant
                k <= self.lent@.len(),
                self@ == pool,
                forall|j: int| 0 <= j < k ==> self.lent@[j] != id,
            decreases self.lent@.len() - k,
        {
            k += 1;
        }
        if k == self.lent.len() {
            assert(!pool.lent.contains(id));
            return false;
        }
        assert(pool.lent[k as int] == id);
        proof {
            let w = pool.lent.index_of(id);
            assert(0 <= w < pool.lent.len() && pool.lent[w] == id);
            if w < k {
                assert(pool.lent[w] != pool.lent[k as int]);
            } else if k < w {
                assert(pool.lent[k as int] != pool.lent[w]);
            }
        }
        let mut taken = BufferPool::new(0);
        proof {
            use_type_invariant(&taken);
        }
        std::mem::swap(self, &mut taken);
        let BufferPool { capacity, shape, mut free, mut lent, next_id } = taken;
        lent.remove(k);
        free.push(buffer);
        assert(free@.map_values(|b: PixelBuffer| b@) =~= pool.free.push(buffer@));
        *self = BufferPool { capacity, shape, free, lent, next_id };
        true
    }
}

} // verus!
