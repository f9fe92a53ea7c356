use vstd::prelude::*;

use crate::error::CodecError;

verus! {

/// The little-endian value of a 4-byte sequence.
pub open spec fn u32_le(s: Seq<u8>) -> int
    recommends
        s.len() == 4,
{
    s[0] + s[1] * 0x100 + s[2] * 0x1_0000 + s[3] * 0x100_0000
}

/// The little-endian value of an 8-byte sequence.
pub open spec fn u64_le(s: Seq<u8>) -> int
    recommends
        s.len() == 8,
{
    s[0] + s[1] * 0x100 + s[2] * 0x1_0000 + s[3] * 0x100_0000 + s[4] * 0x1_0000_0000
        + s[5] * 0x100_0000_0000 + s[6] * 0x1_0000_0000_0000 + s[7] * 0x100_0000_0000_0000
}

/// The little-endian 32-bit value stored at byte position `pos` of `s`.
pub open spec fn u32_at(s: Seq<u8>, pos: int) -> int
    recommends
        0 <= pos,
        pos + 4 <= s.len(),
{
    u32_le(s.subrange(pos, pos + 4))
}

/// A non-owning, bounds-checked window into a byte buffer, kept as the pair
/// of its start and end positions; the buffer itself stays with the caller.
#[derive(Clone, Copy, Debug, PartialEq, Eq, Structural)]
pub struct ByteView {
    pub start: usize,
    pub end: usize,
}

impl ByteView {
    /// The view designates a range that lies inside a buffer of the given contents.
    pub open spec fn wf(self, buf: Seq<u8>) -> bool {
        self.start <= self.end <= buf.len()
    }

    /// The bytes the view designates.
    pub open spec fn sel(self, buf: Seq<u8>) -> Seq<u8> {
        buf.subrange(self.start as int, self.end as int)
    }

    /// The number of bytes the view designates.
    pub open spec fn spec_len(self) -> int {
        self.end - self.start
    }

    /// Bounds-checked construction: fails with `OutOfBounds` when the range
    /// is inverted or runs past the buffer.
    pub fn new(buffer: &Vec<u8>, start: usize, end: usize) -> (r: Result<ByteView, CodecError>)
        ensures
            r is Ok <==> start <= end && end <= buffer@.len(),
            r is Ok ==> r->Ok_0 == (ByteView { start, end }),
            r is Err ==> r->Err_0 == CodecError::OutOfBounds,
    {
        if start <= end && end <= buffer.len() {
            Ok(ByteView { start, end })
        } else {
            Err(CodecError::OutOfBounds)
        }
    }

    /// The view's length in bytes.
    pub fn len(&self) -> (r: usize)
        requires
            self.start <= self.end,
        ensures
            r == self.spec_len(),
    {
        self.end - self.start
    }

    /// Copies the designated bytes out of the buffer.
    pub fn bytes(&self, buffer: &Vec<u8>) -> (r: Vec<u8>)
        requires
            self.wf(buffer@),
        ensures
            r@ == self.sel(buffer@),
    {
        copy_range(buffer, self.start, self.end)
    }
}

/// Copies `buffer[a..b]` into a fresh vector.
pub fn copy_range(buffer: &Vec<u8>, a: usize, b: usize) -> (r: Vec<u8>)
    requires
        a <= b <= buffer@.len(),
    ensures
        r@ == buffer@.subrange(a as int, b as int),
{
    let mut out: Vec<u8> = Vec::new();
    let mut k: usize = a;
    while k < b
        invariant
            a <= k <= b <= buffer@.len(),
            out@ == buffer@.subrange(a as int, k as int),
        decreases b - k,
    {
        out.push(buffer[k]);
        proof {
            assert(buffer@.subrange(a as int, k + 1) =~= buffer@.subrange(a as int, k as int)
                .push(buffer@[k as int]));
        }
        k = k + 1;
    }
    out
}

/// Reads the little-endian 32-bit scalar at absolute position `pos`.
pub fn read_u32_at(buffer: &Vec<u8>, pos: usize) -> (r: u32)
    requires
        pos + 4 <= buffer@.len(),
    ensures
        r == u32_at(buffer@, pos as int),
{
    let n: usize = buffer.len();
    let b0 = buffer[pos] as u32;
    let b1 = buffer[pos + 1] as u32;
    let b2 = buffer[pos + 2] as u32;
    let b3 = buffer[pos + 3] as u32;
    let r = b0 + b1 * 0x100 + b2 * 0x1_0000 + b3 * 0x100_0000;
    proof {
        let s = buffer@.subrange(pos as int, pos as int + 4);
        assert(s[0] == buffer@[pos as int]);
        assert(s[1] == buffer@[pos as int + 1]);
        assert(s[2] == buffer@[pos as int + 2]);
        assert(s[3] == buffer@[pos as int + 3]);
    }
    r
}

/// Reads the little-endian 64-bit scalar at absolute position `pos`.
pub fn read_u64_at(buffer: &Vec<u8>, pos: usize) -> (r: u64)
    requires
        pos + 8 <= buffer@.len(),
    ensures
        r == u64_le(buffer@.subrange(pos as int, pos as int + 8)),
{
    let n: usize = buffer.len();
    let b0 = buffer[pos] as u64;
    let b1 = buffer[pos + 1] as u64;
    let b2 = buffer[pos + 2] as u64;
    let b3 = buffer[pos + 3] as u64;
    let b4 = buffer[pos + 4] as u64;
    let b5 = buffer[pos + 5] as u64;
    let b6 = buffer[pos + 6] as u64;
    let b7 = buffer[pos + 7] as u64;
    let r = b0 + b1 * 0x100 + b2 * 0x1_0000 + b3 * 0x100_0000 + b4 * 0x1_0000_0000
        + b5 * 0x100_0000_0000 + b6 * 0x1_0000_0000_0000 + b7 * 0x100_0000_0000_0000;
    proof {
        let s = buffer@.subrange(pos as int, pos as int + 8);
        assert(s[0] == buffer@[pos as int]);
        assert(s[1] == buffer@[pos as int + 1]);
        assert(s[2] == buffer@[pos as int + 2]);
        assert(s[3] == buffer@[pos as int + 3]);
        assert(s[4] == buffer@[pos as int + 4]);
        assert(s[5] == buffer@[pos as int + 5]);
        assert(s[6] == buffer@[pos as int + 6]);
        assert(s[7] == buffer@[pos as int + 7]);
    }
    r
}

/// Reads a little-endian 32-bit scalar at `offset` within a view; fails with
/// `OutOfBounds` when the 4-byte width would run past the view's end.
pub fn read_u32_le(buffer: &Vec<u8>, v: ByteView, offset: usize) -> (r: Result<
    u32,
    CodecError,
>)
    requires
        v.wf(buffer@),
    ensures
        r is Ok <==> offset + 4 <= v.spec_len(),
        r is Ok ==> r->Ok_0 == u32_le(v.sel(buffer@).subrange(offset as int, offset as int + 4)),
        r is Err ==> r->Err_0 == CodecError::OutOfBounds,
{
    if offset <= v.end - v.start && (v.end - v.start) - offset >= 4 {
        let r = read_u32_at(buffer, v.start + offset);
        proof {
            assert(v.sel(buffer@).subrange(offset as int, offset as int + 4) =~= buffer@.subrange(
                v.start + offset,
                v.start + offset + 4,
            ));
        }
        Ok(r)
    } else {
        Err(CodecError::OutOfBounds)
    }
}

/// Reads a little-endian 64-bit scalar at `offset` within a view; fails with
/// `OutOfBounds` when the 8-byte width would run past the view's end.
pub fn read_u64_le(buffer: &Vec<u8>, v: ByteView, offset: usize) -> (r: Result<
    u64,
    CodecError,
>)
    requires
        v.wf(buffer@),
    ensures
        r is Ok <==> offset + 8 <= v.spec_len(),
        r is Ok ==> r->Ok_0 == u64_le(v.sel(buffer@).subrange(offset as int, offset as int + 8)),
        r is Err ==> r->Err_0 == CodecError::OutOfBounds,
{
    if offset <= v.end - v.start && (v.end - v.start) - offset >= 8 {
        let r = read_u64_at(buffer, v.start + offset);
        proof {
            assert(v.sel(buffer@).subrange(offset as int, offset as int + 8) =~= buffer@.subrange(
                v.start + offset,
                v.start + offset + 8,
            ));
        }
        Ok(r)
    } else {
        Err(CodecError::OutOfBounds)
    }
}

/// Appends the 4-byte little-endian encoding of `v` to `out`.
pub fn push_u32_le(out: &mut Vec<u8>, v: u32)
    ensures
        final(out)@.len() == old(out)@.len() + 4,
        final(out)@.subrange(0, old(out)@.len() as int) == old(out)@,
        u32_at(final(out)@, old(out)@.len() as int) == v,
{
    let b0 = (v % 0x100) as u8;
    let b1 = ((v / 0x100) % 0x100) as u8;
    let b2 = ((v / 0x1_0000) % 0x100) as u8;
    let b3 = ((v / 0x100_0000) % 0x100) as u8;
    let ghost base = out@;
    out.push(b0);
    out.push(b1);
    out.push(b2);
    out.push(b3);
    proof {
        assert(v == (v % 0x100) + 0x100 * ((v / 0x100) % 0x100) + 0x1_0000 * ((v / 0x1_0000)
            % 0x100) + 0x100_0000 * ((v / 0x100_0000) % 0x100)) by (bit_vector);
        assert(out@.subrange(0, base.len() as int) =~= base);
        let s = out@.subrange(base.len() as int, base.len() as int + 4);
        assert(s[0] == b0);
        assert(s[1] == b1);
        assert(s[2] == b2);
        assert(s[3] == b3);
    }
}

} // verus!
