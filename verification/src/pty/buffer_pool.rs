//! Buffers that are used again and again.
use std::collections::VecDeque;
use vstd::prelude::*;

verus! {

/// `Vec::capacity` is the number of elements that the vector can hold without
/// getting more memory, so it is no less than its length.
#[verifier::external_body]
fn capacity_of(buf: &Vec<u8>) -> (capacity: usize)
    ensures
        capacity >= buf@.len(),
{
    buf.capacity()
}

/// So many zero bytes.
pub open spec fn zeros(n: usize) -> Seq<u8> {
    Seq::new(n as nat, |i: int| 0u8)
}

/// A pool at one moment.
#[verifier::ext_equal]
pub struct PoolModel {
    /// How many buffers are at rest.
    pub idle: nat,
    /// The length of a buffer.
    pub length: usize,
}

impl PoolModel {
    /// The pool without a buffer at rest, if there is one.
    pub open spec fn acquired(self) -> PoolModel {
        PoolModel {
            idle: if self.idle == 0 {
                0
            } else {
                (self.idle - 1) as nat
            },
            ..self
        }
    }

    /// The pool after a buffer came back that can hold `capacity` bytes.
    pub open spec fn released(self, capacity: usize) -> PoolModel {
        PoolModel {
            idle: if capacity >= self.length {
                self.idle + 1
            } else {
                self.idle
            },
            ..self
        }
    }
}

/// A pool of buffers of one length.
pub struct BufferPool {
    bufs: VecDeque<Vec<u8>>,
    buf_capacity: usize,
}

impl View for BufferPool {
    type V = PoolModel;

    closed spec fn view(&self) -> PoolModel {
        PoolModel { idle: self.bufs@.len(), length: self.buf_capacity }
    }
}

impl BufferPool {
    /// All buffers at rest are blank.
    pub closed spec fn wf(&self) -> bool {
        forall|i: int| 0 <= i < self.bufs@.len() ==> (#[trigger] self.bufs@[i])@ == zeros(
            self.buf_capacity,
        )
    }

    /// A pool with some buffers.
    pub fn new(buf_capacity: usize, initial_count: usize) -> (pool: BufferPool)
        ensures
            pool.wf(),
            pool@ == (PoolModel { idle: initial_count as nat, length: buf_capacity }),
    {
        let mut bufs: VecDeque<Vec<u8>> = VecDeque::new();
        let mut i: usize = 0;
        while i < initial_count
            invariant
                i <= initial_count,
                bufs@.len() == i,
                forall|j: int| 0 <= j < bufs@.len() ==> (#[trigger] bufs@[j])@ == zeros(
                    buf_capacity,
                ),
            decreases initial_count - i,
        {
            bufs.push_back(blank(buf_capacity));
            i += 1;
        }
        BufferPool { bufs, buf_capacity }
    }

    /// A blank buffer: one at rest, or a new one if there is none.
    pub fn acquire(&mut self) -> (buf: Vec<u8>)
        requires
            old(self).wf(),
        ensures
            final(self).wf(),
            buf@ == zeros(old(self)@.length),
            final(self)@ == old(self)@.acquired(),
    {
        let ghost before = self.bufs@;
        match self.bufs.pop_front() {
            Some(buf) => {
                assert(buf == before[0]);
                assert(forall|j: int|
                    0 <= j < self.bufs@.len() ==> (#[trigger] self.bufs@[j]) == before[j + 1]);
                buf
            },
            None => blank(self.buf_capacity),
        }
    }

    /// The first `len` bytes of a buffer as output.
    pub fn wrap(&self, buf: Vec<u8>, len: usize) -> (output: OutputBuffer)
        ensures
            output@ == if len < buf@.len() {
                buf@.take(len as int)
            } else {
                buf@
            },
            output.full_length() == self@.length,
    {
        let mut bytes = buf;
        bytes.truncate(len);
        assert(len < buf@.len() ==> bytes@ =~= buf@.take(len as int));
        OutputBuffer { buf: bytes, original_capacity: self.buf_capacity }
    }

    /// Takes a buffer back, for whatever it can hold. That is at least its
    /// length; how much more is up to the allocator.
    pub fn release(&mut self, buf: Vec<u8>)
        requires
            old(self).wf(),
        ensures
            final(self).wf(),
            exists|capacity: usize|
                capacity >= buf@.len() && final(self)@ == #[trigger] old(self)@.released(capacity),
    {
        let capacity: usize = capacity_of(&buf);
        self.release_with(buf, capacity);
    }

    /// Takes a buffer back that can hold `capacity` bytes.
    pub fn release_with(&mut self, buf: Vec<u8>, capacity: usize)
        requires
            old(self).wf(),
        ensures
            final(self).wf(),
            final(self)@ == old(self)@.released(capacity),
    {
        let mut bytes = buf;
        bytes.clear();
        if capacity >= self.buf_capacity {
            let ghost before = self.bufs@;
            bytes.resize(self.buf_capacity, 0);
            assert(bytes@ =~= zeros(self.buf_capacity));
            self.bufs.push_back(bytes);
            assert(forall|j: int|
                0 <= j < before.len() ==> (#[trigger] self.bufs@[j]) == before[j]);
        }
    }
}

/// A buffer that comes back is there for the next one who needs it: while no
/// buffer shrinks, the pool makes no new ones.
pub proof fn law_released_buffer_is_used_again(pool: PoolModel, capacity: usize)
    requires
        capacity >= pool.length,
    ensures
        pool.released(capacity).idle > 0,
        pool.released(capacity).acquired() == pool,
{
}

/// A buffer that is too small does not come back; of a pool without buffers none is
/// taken.
pub proof fn law_pool_keeps_count(pool: PoolModel, capacity: usize)
    ensures
        capacity < pool.length ==> pool.released(capacity) == pool,
        capacity >= pool.length ==> pool.released(capacity).idle == pool.idle + 1,
        pool.idle == 0 ==> pool.acquired() == pool,
        pool.idle > 0 ==> pool.acquired().idle + 1 == pool.idle,
        pool.acquired().length == pool.length,
        pool.released(capacity).length == pool.length,
        zeros(pool.length).len() == pool.length,
        forall|i: int| 0 <= i < pool.length ==> #[trigger] zeros(pool.length)[i] == 0,
{
}

fn blank(n: usize) -> (buf: Vec<u8>)
    ensures
        buf@ == zeros(n),
{
    let buf = vec![0u8; n];
    assert(buf@ =~= zeros(n));
    buf
}

/// Output bytes in a buffer of a pool.
pub struct OutputBuffer {
    buf: Vec<u8>,
    original_capacity: usize,
}

impl View for OutputBuffer {
    type V = Seq<u8>;

    closed spec fn view(&self) -> Seq<u8> {
        self.buf@
    }
}

impl OutputBuffer {
    /// The length of the pool's buffers.
    pub closed spec fn full_length(&self) -> usize {
        self.original_capacity
    }

    /// The bytes.
    pub fn bytes(&self) -> (bytes: &[u8])
        ensures
            bytes@ == self@,
    {
        self.buf.as_slice()
    }

    /// The buffer itself, to go back to its pool.
    pub fn into_buffer(self) -> (buf: Vec<u8>)
        ensures
            buf@ == self@,
    {
        self.buf
    }
}

} // verus!
