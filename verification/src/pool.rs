//! Memory pool: a fixed number of buffers allocated up front and handed out and
//! back again, so that the hot path does not allocate.
//!
//! Sharing a pool between owners, and handing a buffer back when it is dropped, is
//! up to the caller, which calls [`MemoryPool::release`].

use vstd::prelude::*;
use bytes::{Bytes, BytesMut};
use crate::zbuf::bytes_view;

verus! {

#[verifier::external_type_specification]
#[verifier::external_body]
pub struct ExBytesMut(BytesMut);

/// The bytes a `BytesMut` holds.
pub uninterp spec fn bytes_mut_view(b: BytesMut) -> Seq<u8>;

/// The number of bytes a buffer was made to hold: for a buffer from
/// `BytesMut::zeroed(len)`, `len`. Clearing keeps it, and so does appending within
/// it; the buffer's capacity never falls below it.
pub uninterp spec fn bytes_mut_room(b: BytesMut) -> nat;

/// Calls `BytesMut::zeroed`: `len` zero bytes, in a buffer made to hold `len` (it is
/// built from `vec![0; len]`, whose capacity is its length).
#[verifier::external_body]
fn zeroed(len: usize) -> (b: BytesMut)
    ensures
        bytes_mut_view(b) == Seq::new(len as nat, |i: int| 0u8),
        bytes_mut_room(b) == len,
{
    BytesMut::zeroed(len)
}

/// Calls `BytesMut::clear`: no bytes are left, and the capacity is kept.
#[verifier::external_body]
fn clear_bytes(b: &mut BytesMut)
    ensures
        bytes_mut_view(*final(b)).len() == 0,
        bytes_mut_room(*final(b)) == bytes_mut_room(*old(b)),
{
    b.clear()
}

/// Calls `BytesMut::len`.
#[verifier::external_body]
fn bytes_mut_len(b: &BytesMut) -> (n: usize)
    ensures
        n == bytes_mut_view(*b).len(),
{
    b.len()
}

/// Calls `BytesMut::capacity`: what the buffer holds without reallocating, which
/// is never less than its length nor than what it was made to hold. How much more
/// depends on the allocation, so no more is promised.
#[verifier::external_body]
fn bytes_mut_capacity(b: &BytesMut) -> (c: usize)
    ensures
        c >= bytes_mut_view(*b).len(),
        c >= bytes_mut_room(*b),
{
    b.capacity()
}

/// Calls `BytesMut::extend_from_slice`: the bytes are appended. Appending within
/// what the buffer was made to hold fits its capacity, so it is not resized.
#[verifier::external_body]
fn extend_bytes(b: &mut BytesMut, data: &[u8])
    ensures
        bytes_mut_view(*final(b)) == bytes_mut_view(*old(b)) + data@,
        bytes_mut_view(*old(b)).len() + data@.len() <= bytes_mut_room(*old(b)) ==> bytes_mut_room(
            *final(b),
        ) == bytes_mut_room(*old(b)),
{
    b.extend_from_slice(data)
}

/// Calls `BytesMut::freeze`: the same bytes, no longer mutable.
#[verifier::external_body]
fn freeze_bytes(b: BytesMut) -> (f: Bytes)
    ensures
        bytes_view(f) == bytes_mut_view(b),
{
    b.freeze()
}

/// A buffer taken from a pool.
pub struct PooledBuffer {
    buf: BytesMut,
}

impl PooledBuffer {
    /// The bytes written.
    pub closed spec fn contents(&self) -> Seq<u8> {
        bytes_mut_view(self.buf)
    }

    /// The underlying buffer.
    pub fn as_ref(&self) -> (b: &BytesMut)
        ensures
            bytes_mut_view(*b) == self.contents(),
    {
        &self.buf
    }

    /// The underlying buffer, for writing.
    pub fn as_mut(&mut self) -> (b: &mut BytesMut)
        ensures
            bytes_mut_view(*b) == old(self).contents(),
            final(self).contents() == bytes_mut_view(*final(b)),
    {
        &mut self.buf
    }

    /// What the buffer was made to hold.
    pub closed spec fn room(&self) -> nat {
        bytes_mut_room(self.buf)
    }

    /// Writes as much of `data` as fits in `spare` more bytes; returns how much
    /// that was.
    pub fn write_within(&mut self, data: &[u8], spare: usize) -> (n: usize)
        ensures
            n == if data@.len() < spare {
                data@.len()
            } else {
                spare as nat
            },
            final(self).contents() == old(self).contents() + data@.take(n as int),
            old(self).contents().len() + n <= old(self).room() ==> final(self).room() == old(
                self,
            ).room(),
    {
        let n = if data.len() < spare {
            data.len()
        } else {
            spare
        };
        let part = vstd::slice::slice_subrange(data, 0, n);
        assert(part@ == data@.take(n as int));
        extend_bytes(&mut self.buf, part);
        n
    }

    /// Writes as much of `data` as fits in the buffer's spare capacity; returns how
    /// much that was. Everything is written when it fits in what the buffer was
    /// made to hold.
    pub fn write(&mut self, data: &[u8]) -> (n: usize)
        ensures
            n <= data@.len(),
            final(self).contents() == old(self).contents() + data@.take(n as int),
            old(self).contents().len() + data@.len() <= old(self).room() ==> n == data@.len()
                && final(self).room() == old(self).room(),
    {
        let spare = bytes_mut_capacity(&self.buf) - bytes_mut_len(&self.buf);
        self.write_within(data, spare)
    }

    /// Empties the buffer; what it was made to hold is kept.
    pub fn clear(&mut self)
        ensures
            final(self).contents().len() == 0,
            final(self).room() == old(self).room(),
    {
        clear_bytes(&mut self.buf)
    }

    /// The number of bytes written.
    pub fn len(&self) -> (n: usize)
        ensures
            n == self.contents().len(),
    {
        bytes_mut_len(&self.buf)
    }

    /// Whether nothing is written.
    pub fn is_empty(&self) -> (b: bool)
        ensures
            b == (self.contents().len() == 0),
    {
        bytes_mut_len(&self.buf) == 0
    }

    /// The bytes written, frozen; the buffer does not go back to its pool.
    pub fn freeze(self) -> (b: Bytes)
        ensures
            bytes_view(b) == self.contents(),
    {
        freeze_bytes(self.buf)
    }
}

/// Pre-allocated buffers for message passing.
pub struct MemoryPool {
    pool: Vec<BytesMut>,
    buffer_size: usize,
    capacity: usize,
}

impl MemoryPool {
    /// The number of buffers ready to hand out.
    pub closed spec fn spec_available(&self) -> nat {
        self.pool@.len()
    }

    /// The number of buffers the pool was made with.
    pub closed spec fn spec_capacity(&self) -> usize {
        self.capacity
    }

    /// The size of each buffer.
    pub closed spec fn spec_buffer_size(&self) -> usize {
        self.buffer_size
    }

    /// The contents of the buffers ready to hand out; the last is handed out next.
    pub closed spec fn ready(&self) -> Seq<Seq<u8>> {
        self.pool@.map_values(|b: BytesMut| bytes_mut_view(b))
    }

    /// Well-formedness: never more buffers ready than the pool was made with, and
    /// each made to hold `buffer_size` bytes.
    pub closed spec fn wf(&self) -> bool {
        &&& self.pool@.len() <= self.capacity
        &&& forall|i: int| 0 <= i < self.pool@.len() ==> bytes_mut_room(#[trigger] self.pool@[i])
            == self.buffer_size
    }

    /// A pool of `capacity` zeroed buffers of `buffer_size` bytes.
    pub fn new(capacity: usize, buffer_size: usize) -> (p: MemoryPool)
        ensures
            p.wf(),
            p.spec_available() == capacity,
            p.spec_capacity() == capacity,
            p.spec_buffer_size() == buffer_size,
            p.ready() == Seq::new(capacity as nat, |i: int| zeros(buffer_size)),
    {
        let mut pool: Vec<BytesMut> = Vec::new();
        let mut i: usize = 0;
        while i < capacity
            invariant
                i <= capacity,
                pool@.len() == i,
                forall|j: int| 0 <= j < i ==> bytes_mut_room(#[trigger] pool@[j]) == buffer_size,
                forall|j: int| 0 <= j < i ==> bytes_mut_view(#[trigger] pool@[j]) == zeros(buffer_size),
            decreases capacity - i,
        {
            let b = zeroed(buffer_size);
            assert(bytes_mut_view(b) =~= zeros(buffer_size));
            pool.push(b);
            i += 1;
        }
        let p = MemoryPool { pool, buffer_size, capacity };
        assert(p.ready() =~= Seq::new(capacity as nat, |i: int| zeros(buffer_size)));
        p
    }

    /// Takes a buffer, or `None` when all are handed out.
    pub fn acquire(&mut self) -> (r: Option<PooledBuffer>)
        requires
            old(self).wf(),
        ensures
            final(self).wf(),
            old(self).spec_available() == 0 ==> r is None && final(self).spec_available() == 0,
            old(self).spec_available() > 0 ==> r is Some && final(self).spec_available()
                == old(self).spec_available() - 1,
            r matches Some(b) ==> b.contents() == old(self).ready().last() && b.room()
                == old(self).spec_buffer_size() && final(self).ready() == old(self).ready().drop_last(),
            final(self).spec_capacity() == old(self).spec_capacity(),
            final(self).spec_buffer_size() == old(self).spec_buffer_size(),
    {
        let ghost p0 = self.pool@;
        match self.pool.pop() {
            Some(buf) => {
                assert(self.ready() =~= old(self).ready().drop_last());
                assert(buf == p0[p0.len() - 1]);
                Some(PooledBuffer { buf })
            },
            None => None,
        }
    }

    /// Takes back a buffer that was handed out: the pool gets a fresh empty buffer
    /// in its place, unless it is already full.
    pub fn release(&mut self, buffer: PooledBuffer)
        requires
            old(self).wf(),
        ensures
            final(self).wf(),
            final(self).spec_available() == if old(self).spec_available() < old(self).spec_capacity() {
                old(self).spec_available() + 1
            } else {
                old(self).spec_available()
            },
            final(self).spec_capacity() == old(self).spec_capacity(),
            final(self).spec_buffer_size() == old(self).spec_buffer_size(),
            final(self).ready() == if old(self).spec_available() < old(self).spec_capacity() {
                old(self).ready().push(Seq::empty())
            } else {
                old(self).ready()
            },
    {
        let _returned = buffer;
        if self.pool.len() < self.capacity {
            let mut buf = zeroed(self.buffer_size);
            clear_bytes(&mut buf);
            assert(bytes_mut_view(buf) =~= Seq::<u8>::empty());
            self.pool.push(buf);
            assert(self.ready() =~= old(self).ready().push(Seq::empty()));
        }
    }

    /// The number of buffers ready to hand out.
    pub fn available(&self) -> (n: usize)
        ensures
            n == self.spec_available(),
    {
        self.pool.len()
    }

    /// The number of buffers the pool was made with.
    pub fn capacity(&self) -> (n: usize)
        ensures
            n == self.spec_capacity(),
    {
        self.capacity
    }

    /// The size of each buffer.
    pub fn buffer_size(&self) -> (n: usize)
        ensures
            n == self.spec_buffer_size(),
    {
        self.buffer_size
    }
}

/// `n` zero bytes.
pub open spec fn zeros(n: usize) -> Seq<u8> {
    Seq::new(n as nat, |i: int| 0u8)
}

} // verus!
