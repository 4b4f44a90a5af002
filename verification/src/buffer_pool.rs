//! Reusable byte buffers, to save an allocation for every packet.

use vstd::prelude::*;
use vstd::slice::*;

use crate::bytes::zeros;

verus! {

/// Maximum UDP packet size.
pub const MAX_PACKET_SIZE: usize = 65535;

/// Default pool capacity (number of buffers to keep).
pub const DEFAULT_POOL_CAPACITY: usize = 256;

/// `Vec::capacity`: at least the length.
#[verifier::external_body]
fn vec_capacity(v: &Vec<u8>) -> (n: usize)
    ensures
        n >= v@.len(),
{
    v.capacity()
}

/// A buffer from the pool.
pub struct PooledBuffer {
    data: Vec<u8>,
}

impl View for PooledBuffer {
    type V = Seq<u8>;

    closed spec fn view(&self) -> Seq<u8> {
        self.data@
    }
}

impl PooledBuffer {
    /// The first `len` bytes of the buffer.
    pub fn as_slice(&self, len: usize) -> (s: &[u8])
        requires
            len <= self@.len(),
        ensures
            s@ == self@.subrange(0, len as int),
    {
        slice_subrange(self.data.as_slice(), 0, len)
    }

    /// Mutable access to the whole buffer.
    pub fn as_mut_slice(&mut self) -> (s: &mut [u8])
        ensures
            s@ == old(self)@,
            final(self)@ == final(s)@,
    {
        self.data.as_mut_slice()
    }

    /// The buffer capacity.
    pub fn capacity(&self) -> (n: usize)
        ensures
            n >= self@.len(),
    {
        vec_capacity(&self.data)
    }
}

/// A buffer of zeros of the maximum packet size.
fn zeroed() -> (v: Vec<u8>)
    ensures
        v@ == zeros(MAX_PACKET_SIZE as int),
{
    let mut v: Vec<u8> = Vec::with_capacity(MAX_PACKET_SIZE);
    v.resize(MAX_PACKET_SIZE, 0u8);
    assert(v@ =~= zeros(MAX_PACKET_SIZE as int));
    v
}

/// Pool of reusable byte buffers.
pub struct BufferPool {
    buffers: Vec<Vec<u8>>,
    capacity: usize,
}

impl BufferPool {
    /// The number of buffers in the pool.
    pub closed spec fn spec_pooled(&self) -> nat {
        self.buffers@.len()
    }

    /// The number of buffers that the pool keeps at most.
    pub closed spec fn limit(&self) -> nat {
        self.capacity as nat
    }

    /// The pool keeps no more buffers than it may, and none holds old data:
    /// each is empty, or full of zeros.
    pub closed spec fn wf(&self) -> bool {
        &&& self.buffers@.len() <= self.capacity
        &&& forall|i: int|
            0 <= i < self.buffers@.len() ==> (#[trigger] self.buffers@[i])@.len() == 0
                || self.buffers@[i]@ == zeros(MAX_PACKET_SIZE as int)
    }

    /// Creates a pool with the default capacity.
    pub fn new() -> (p: Self)
        ensures
            p.wf(),
            p.spec_pooled() == 0,
            p.limit() == DEFAULT_POOL_CAPACITY,
    {
        Self::with_capacity(DEFAULT_POOL_CAPACITY)
    }

    /// Creates a pool that keeps up to `capacity` buffers.
    pub fn with_capacity(capacity: usize) -> (p: Self)
        ensures
            p.wf(),
            p.spec_pooled() == 0,
            p.limit() == capacity,
    {
        Self { buffers: Vec::new(), capacity }
    }

    /// The number of buffers in the pool.
    pub fn pooled(&self) -> (n: usize)
        ensures
            n == self.spec_pooled(),
    {
        self.buffers.len()
    }

    /// Takes a buffer from the pool, or makes a new one if the pool is empty.
    /// It is full size and holds only zeros.
    pub fn get(&mut self) -> (b: PooledBuffer)
        requires
            old(self).wf(),
        ensures
            final(self).wf(),
            final(self).limit() == old(self).limit(),
            final(self).spec_pooled() == if old(self).spec_pooled() > 0 {
                (old(self).spec_pooled() - 1) as nat
            } else {
                0
            },
            b@ == zeros(MAX_PACKET_SIZE as int),
    {
        let data = match self.buffers.pop() {
            Some(pooled) => {
                assert(pooled@ == old(self).buffers@[old(self).buffers@.len() - 1]@);
                let mut data = pooled;
                if data.len() < MAX_PACKET_SIZE {
                    data.resize(MAX_PACKET_SIZE, 0u8);
                }
                assert(data@ =~= zeros(MAX_PACKET_SIZE as int));
                data
            },
            None => zeroed(),
        };
        PooledBuffer { data }
    }

    /// Returns a buffer to the pool. It is cleared, and dropped if the pool is full.
    pub fn put_back(&mut self, buffer: PooledBuffer)
        requires
            old(self).wf(),
        ensures
            final(self).wf(),
            final(self).limit() == old(self).limit(),
            final(self).spec_pooled() == if old(self).spec_pooled() < old(self).limit() {
                old(self).spec_pooled() + 1
            } else {
                old(self).spec_pooled()
            },
    {
        if self.buffers.len() < self.capacity {
            let mut data = buffer.data;
            data.clear();
            self.buffers.push(data);
        }
    }

    /// Fills the pool up to `count` buffers, as far as its capacity allows.
    pub fn preallocate(&mut self, count: usize)
        requires
            old(self).wf(),
        ensures
            final(self).wf(),
            final(self).limit() == old(self).limit(),
            final(self).spec_pooled() == vstd::math::max(
                old(self).spec_pooled() as int,
                vstd::math::min(count as int, old(self).limit() as int),
            ),
    {
        let wanted: usize = if count < self.capacity {
            count
        } else {
            self.capacity
        };
        while self.buffers.len() < wanted
            invariant
                self.wf(),
                self.limit() == old(self).limit(),
                wanted == vstd::math::min(count as int, old(self).limit() as int),
                old(self).spec_pooled() <= self.spec_pooled(),
                self.spec_pooled() <= vstd::math::max(old(self).spec_pooled() as int, wanted as int),
            decreases wanted - self.buffers@.len(),
        {
            self.buffers.push(zeroed());
        }
    }
}

impl Default for BufferPool {
    fn default() -> (p: Self)
        ensures
            p.wf(),
            p.spec_pooled() == 0,
            p.limit() == DEFAULT_POOL_CAPACITY,
    {
        Self::new()
    }
}

} // verus!
