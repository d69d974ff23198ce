//! ZBuf: a chain of byte slices that reads as one buffer without copying.

use vstd::prelude::*;
use std::collections::VecDeque;
use bytes::Bytes;

verus! {

#[verifier::external_type_specification]
#[verifier::external_body]
pub struct ExBytes(Bytes);

/// The bytes a `Bytes` holds.
pub uninterp spec fn bytes_view(b: Bytes) -> Seq<u8>;

/// Calls `Bytes::len`: the number of bytes held.
#[verifier::external_body]
pub(crate) fn bytes_len(b: &Bytes) -> (n: usize)
    ensures
        n == bytes_view(*b).len(),
{
    b.len()
}

/// Calls `Bytes::from(Vec<u8>)`: the buffer holds the vector's bytes.
#[verifier::external_body]
pub(crate) fn bytes_from_vec(v: Vec<u8>) -> (b: Bytes)
    ensures
        bytes_view(b) == v@,
{
    Bytes::from(v)
}

/// Calls `Bytes::clone`: another handle on the same bytes.
#[verifier::external_body]
pub(crate) fn bytes_clone(b: &Bytes) -> (c: Bytes)
    ensures
        bytes_view(c) == bytes_view(*b),
{
    b.clone()
}

/// Calls `<Bytes as AsRef<[u8]>>::as_ref`: the bytes held, as a slice.
#[verifier::external_body]
pub(crate) fn bytes_slice(b: &Bytes) -> (s: &[u8])
    ensures
        s@ == bytes_view(*b),
{
    b.as_ref()
}

/// The bytes of a chain of slices, one after the other.
pub open spec fn flat(s: Seq<Seq<u8>>) -> Seq<u8>
    decreases s.len(),
{
    if s.len() == 0 {
        Seq::empty()
    } else {
        flat(s.drop_last()) + s.last()
    }
}

/// The contents of a chain of buffers.
pub open spec fn chunks(s: Seq<Bytes>) -> Seq<Seq<u8>> {
    s.map_values(|b: Bytes| bytes_view(b))
}

proof fn lemma_flat_push(s: Seq<Seq<u8>>, x: Seq<u8>)
    ensures
        flat(s.push(x)) == flat(s) + x,
{
    assert(s.push(x).drop_last() =~= s);
}

proof fn lemma_flat_front(x: Seq<u8>, s: Seq<Seq<u8>>)
    ensures
        flat(seq![x] + s) == x + flat(s),
    decreases s.len(),
{
    if s.len() == 0 {
        assert(seq![x] + s =~= seq![x]);
        assert(seq![x].drop_last() =~= Seq::<Seq<u8>>::empty());
        assert(x + Seq::<u8>::empty() =~= x);
        assert(Seq::<u8>::empty() + x =~= x);
        assert(flat(seq![x]) == flat(seq![x].drop_last()) + x);
    } else {
        lemma_flat_front(x, s.drop_last());
        assert((seq![x] + s).drop_last() =~= seq![x] + s.drop_last());
        assert(x + flat(s.drop_last()) + s.last() =~= x + (flat(s.drop_last()) + s.last()));
    }
}

/// Zero-copy buffer made of several byte slices.
pub struct ZBuf {
    slices: VecDeque<Bytes>,
    total_len: usize,
}

impl ZBuf {
    /// The slices' contents, in order.
    pub closed spec fn parts(&self) -> Seq<Seq<u8>> {
        chunks(self.slices@)
    }

    /// All bytes, in order.
    pub open spec fn contents(&self) -> Seq<u8> {
        flat(self.parts())
    }

    /// Well-formedness: the recorded length is the number of bytes.
    pub closed spec fn wf(&self) -> bool {
        self.total_len == flat(chunks(self.slices@)).len()
    }

    /// An empty buffer.
    pub fn new() -> (z: ZBuf)
        ensures
            z.wf(),
            z.parts().len() == 0,
            z.contents().len() == 0,
    {
        let z = ZBuf { slices: VecDeque::new(), total_len: 0 };
        assert(chunks(z.slices@) =~= Seq::<Seq<u8>>::empty());
        z
    }

    /// A buffer of one slice.
    pub fn from_bytes(data: Bytes) -> (z: ZBuf)
        ensures
            z.wf(),
            z.parts() == seq![bytes_view(data)],
            z.contents() == bytes_view(data),
    {
        let len = bytes_len(&data);
        let mut slices: VecDeque<Bytes> = VecDeque::new();
        let ghost d = bytes_view(data);
        slices.push_back(data);
        let z = ZBuf { slices, total_len: len };
        assert(chunks(z.slices@) =~= seq![d]);
        proof {
            lemma_flat_push(Seq::<Seq<u8>>::empty(), d);
            assert(Seq::<Seq<u8>>::empty().push(d) =~= seq![d]);
            assert(Seq::<u8>::empty() + d =~= d);
        }
        z
    }

    /// A buffer of one slice holding the vector's bytes.
    pub fn from_vec(data: Vec<u8>) -> (z: ZBuf)
        ensures
            z.wf(),
            z.contents() == data@,
            z.parts().len() == 1,
    {
        ZBuf::from_bytes(bytes_from_vec(data))
    }

    /// Appends a slice.
    pub fn push(&mut self, data: Bytes)
        requires
            old(self).wf(),
            old(self).contents().len() + bytes_view(data).len() <= usize::MAX,
        ensures
            final(self).wf(),
            final(self).parts() == old(self).parts().push(bytes_view(data)),
            final(self).contents() == old(self).contents() + bytes_view(data),
    {
        let ghost d = bytes_view(data);
        self.total_len = self.total_len + bytes_len(&data);
        self.slices.push_back(data);
        assert(chunks(self.slices@) =~= old(self).parts().push(d));
        proof {
            lemma_flat_push(old(self).parts(), d);
        }
    }

    /// Appends a slice if the total length still fits in a `usize`; returns whether
    /// it did. Otherwise the buffer is unchanged.
    pub fn try_push(&mut self, data: Bytes) -> (ok: bool)
        requires
            old(self).wf(),
        ensures
            final(self).wf(),
            ok == (old(self).contents().len() + bytes_view(data).len() <= usize::MAX),
            ok ==> final(self).parts() == old(self).parts().push(bytes_view(data)),
            ok ==> final(self).contents() == old(self).contents() + bytes_view(data),
            !ok ==> final(self).parts() == old(self).parts(),
    {
        if bytes_len(&data) > usize::MAX - self.total_len {
            return false;
        }
        self.push(data);
        true
    }

    /// Prepends a slice if the total length still fits in a `usize`; returns whether
    /// it did. Otherwise the buffer is unchanged.
    pub fn try_push_front(&mut self, data: Bytes) -> (ok: bool)
        requires
            old(self).wf(),
        ensures
            final(self).wf(),
            ok == (old(self).contents().len() + bytes_view(data).len() <= usize::MAX),
            ok ==> final(self).parts() == seq![bytes_view(data)] + old(self).parts(),
            ok ==> final(self).contents() == bytes_view(data) + old(self).contents(),
            !ok ==> final(self).parts() == old(self).parts(),
    {
        if bytes_len(&data) > usize::MAX - self.total_len {
            return false;
        }
        self.push_front(data);
        true
    }

    /// Prepends a slice.
    pub fn push_front(&mut self, data: Bytes)
        requires
            old(self).wf(),
            old(self).contents().len() + bytes_view(data).len() <= usize::MAX,
        ensures
            final(self).wf(),
            final(self).parts() == seq![bytes_view(data)] + old(self).parts(),
            final(self).contents() == bytes_view(data) + old(self).contents(),
    {
        let ghost d = bytes_view(data);
        self.total_len = self.total_len + bytes_len(&data);
        self.slices.push_front(data);
        assert(chunks(self.slices@) =~= seq![d] + old(self).parts());
        proof {
            lemma_flat_front(d, old(self).parts());
        }
    }

    /// The number of bytes.
    pub fn len(&self) -> (n: usize)
        requires
            self.wf(),
        ensures
            n == self.contents().len(),
    {
        self.total_len
    }

    /// Whether there are no bytes.
    pub fn is_empty(&self) -> (b: bool)
        requires
            self.wf(),
        ensures
            b == (self.contents().len() == 0),
    {
        self.total_len == 0
    }

    /// The number of slices.
    pub fn num_slices(&self) -> (n: usize)
        ensures
            n == self.parts().len(),
    {
        self.slices.len()
    }

    /// The slices, in order.
    pub fn slices(&self) -> (r: Vec<&Bytes>)
        ensures
            r@.map_values(|b: &Bytes| bytes_view(*b)) == self.parts(),
    {
        let mut r: Vec<&Bytes> = Vec::new();
        let mut i: usize = 0;
        while i < self.slices.len()
            invariant
                i <= self.slices@.len(),
                r@.map_values(|b: &Bytes| bytes_view(*b)) == self.parts().take(i as int),
            decreases self.slices@.len() - i,
        {
            let ghost r0 = r@.map_values(|b: &Bytes| bytes_view(*b));
            r.push(&self.slices[i]);
            assert(r@.map_values(|b: &Bytes| bytes_view(*b)) =~= r0.push(self.parts()[i as int]));
            assert(self.parts().take(i + 1) =~= self.parts().take(i as int).push(self.parts()[i as int]));
            i += 1;
        }
        assert(self.parts().take(self.slices@.len() as int) =~= self.parts());
        r
    }

    /// Empties the buffer.
    pub fn clear(&mut self)
        ensures
            final(self).wf(),
            final(self).parts().len() == 0,
            final(self).contents().len() == 0,
    {
        self.slices.clear();
        self.total_len = 0;
        assert(chunks(self.slices@) =~= Seq::<Seq<u8>>::empty());
    }
}

/// The bytes of the first `k` slices come first in the bytes of all of them.
proof fn lemma_flat_prefix(s: Seq<Seq<u8>>, k: int)
    requires
        0 <= k <= s.len(),
    ensures
        flat(s.take(k)).len() <= flat(s).len(),
        forall|i: int| 0 <= i < flat(s.take(k)).len() ==> #[trigger] flat(s)[i] == flat(s.take(k))[i],
    decreases s.len(),
{
    if k == s.len() {
        assert(s.take(k) =~= s);
    } else {
        let d = s.drop_last();
        assert(d.take(k) =~= s.take(k));
        lemma_flat_prefix(d, k);
        assert(flat(s) == flat(d) + s.last());
    }
}

/// The bytes of the first `k + 1` slices are those of the first `k` and slice `k`.
proof fn lemma_flat_step(s: Seq<Seq<u8>>, k: int)
    requires
        0 <= k < s.len(),
    ensures
        flat(s.take(k + 1)) == flat(s.take(k)) + s[k],
{
    assert(s.take(k + 1) =~= s.take(k).push(s[k]));
    lemma_flat_push(s.take(k), s[k]);
}

/// `x` clamped to `[lo, hi]`.
pub open spec fn clamp_to(x: int, lo: int, hi: int) -> int {
    if x < lo {
        lo
    } else if x > hi {
        hi
    } else {
        x
    }
}

impl ZBuf {
    /// All bytes in one buffer: the only slice itself if there is one, a copy of
    /// all of them otherwise.
    pub fn contiguous(&self) -> (b: Bytes)
        requires
            self.wf(),
        ensures
            bytes_view(b) == self.contents(),
    {
        if self.slices.len() == 1 {
            proof {
                lemma_flat_push(Seq::<Seq<u8>>::empty(), self.parts()[0]);
                assert(Seq::<Seq<u8>>::empty().push(self.parts()[0]) =~= self.parts());
                assert(Seq::<u8>::empty() + self.parts()[0] =~= self.parts()[0]);
            }
            return bytes_clone(&self.slices[0]);
        }
        let ghost p = self.parts();
        let mut buf: Vec<u8> = Vec::new();
        let mut k: usize = 0;
        while k < self.slices.len()
            invariant
                k <= self.slices@.len(),
                p == self.parts(),
                buf@ == flat(p.take(k as int)),
            decreases self.slices@.len() - k,
        {
            proof {
                lemma_flat_step(p, k as int);
            }
            let c = bytes_slice(&self.slices[k]);
            crate::wire::put_slice(&mut buf, c);
            k += 1;
        }
        assert(p.take(self.slices@.len() as int) =~= p);
        bytes_from_vec(buf)
    }

    /// The `len` bytes starting at `offset`, copied into one buffer, or `None` if
    /// they run past the end.
    pub fn slice(&self, offset: usize, len: usize) -> (r: Option<Bytes>)
        requires
            self.wf(),
        ensures
            offset + len > self.contents().len() ==> r is None,
            offset + len <= self.contents().len() ==> (r matches Some(b) && bytes_view(b)
                == self.contents().subrange(offset as int, offset + len)),
    {
        if len > self.total_len || offset > self.total_len - len {
            return None;
        }
        let end = offset + len;
        let ghost p = self.parts();
        let ghost all = flat(p);
        let mut result: Vec<u8> = Vec::new();
        let mut base: usize = 0;
        let mut k: usize = 0;
        while k < self.slices.len()
            invariant
                k <= self.slices@.len(),
                p == self.parts(),
                all == flat(p),
                self.wf(),
                end == offset + len,
                end <= all.len(),
                base == flat(p.take(k as int)).len(),
                result@ == all.subrange(offset as int, clamp_to(base as int, offset as int, end as int)),
            decreases self.slices@.len() - k,
        {
            proof {
                lemma_flat_step(p, k as int);
                lemma_flat_prefix(p, k as int + 1);
            }
            let c = bytes_slice(&self.slices[k]);
            let clen = c.len();
            assert(c@ == p[k as int]);
            let lo = if offset > base { offset } else { base };
            let top = base + clen;
            let hi = if end < top { end } else { top };
            if lo < hi {
                let mut j = lo - base;
                let ghost r0 = result@;
                while j < hi - base
                    invariant
                        lo - base <= j <= hi - base,
                        hi - base <= c@.len(),
                        base + c@.len() == flat(p.take(k as int + 1)).len(),
                        flat(p.take(k as int + 1)) == flat(p.take(k as int)) + c@,
                        base == flat(p.take(k as int)).len(),
                        flat(p.take(k as int + 1)).len() <= all.len(),
                        base <= lo,
                        forall|i: int|
                            0 <= i < flat(p.take(k as int + 1)).len() ==> #[trigger] all[i] == flat(
                                p.take(k as int + 1),
                            )[i],
                        result@ == r0 + all.subrange(lo as int, base + j),
                    decreases hi - base - j,
                {
                    let ghost jo = j as int;
                    assert((flat(p.take(k as int)) + c@)[base + jo] == c@[jo]);
                    assert(all[base + jo] == c@[jo]);
                    result.push(c[j]);
                    j += 1;
                    assert(all.subrange(lo as int, base + jo + 1) =~= all.subrange(lo as int, base + jo).push(
                        all[base + jo],
                    ));
                    assert(result@ =~= r0 + all.subrange(lo as int, base + j));
                }
                assert(r0 + all.subrange(lo as int, hi as int) =~= all.subrange(offset as int, hi as int));
            }
            base = base + clen;
            k += 1;
        }
        assert(p.take(self.slices@.len() as int) =~= p);
        Some(bytes_from_vec(result))
    }
}

/// Reading a slice of a chain gives the same bytes as reading them from its
/// contiguous copy; prepending puts the new bytes first.
pub proof fn law_slice_reads_contents(parts: Seq<Seq<u8>>, x: Seq<u8>, offset: int, len: int)
    requires
        0 <= offset,
        0 <= len,
        offset + len <= flat(parts).len(),
    ensures
        flat(seq![x] + parts).subrange(x.len() + offset, x.len() + offset + len) == flat(parts).subrange(
            offset,
            offset + len,
        ),
        flat(parts.push(x)).subrange(offset, offset + len) == flat(parts).subrange(offset, offset + len),
{
    lemma_flat_front(x, parts);
    lemma_flat_push(parts, x);
    assert(flat(seq![x] + parts).subrange(x.len() + offset, x.len() + offset + len) =~= flat(
        parts,
    ).subrange(offset, offset + len));
    assert(flat(parts.push(x)).subrange(offset, offset + len) =~= flat(parts).subrange(
        offset,
        offset + len,
    ));
}

} // verus!
