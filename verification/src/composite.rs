use vstd::prelude::*;

use crate::bytes::{copy_range, push_u32_le, read_u32_at, u32_at, ByteView};
use crate::error::CodecError;

verus! {

/// Size in bytes of a composite header: the 4-byte total-length prefix plus
/// one 4-byte offset per field and one more for the final sentinel.
pub open spec fn header_size(field_count: int) -> int {
    4 + 4 * (field_count + 1)
}

/// The i-th offset stored in the header of `buf`; `i` ranges over
/// `0..=field_count`, the last being the sentinel.
pub open spec fn decoded_offset(buf: Seq<u8>, i: int) -> int {
    u32_at(buf, 4 + 4 * i)
}

/// The offset table of `buf` is well formed for `field_count` fields: the
/// first offset names the end of the header, offsets never decrease, and the
/// final sentinel names the end of the buffer.
pub open spec fn offsets_valid(buf: Seq<u8>, field_count: int) -> bool {
    &&& decoded_offset(buf, 0) == header_size(field_count)
    &&& forall|i: int|
        0 <= i < field_count ==> #[trigger] decoded_offset(buf, i) <= decoded_offset(buf, i + 1)
    &&& decoded_offset(buf, field_count) == buf.len()
}

/// `buf` is a valid composite of `field_count` fields: long enough for the
/// length prefix, declaring exactly its own length, long enough for the
/// whole header, and carrying a well-formed offset table.
pub open spec fn composite_valid(buf: Seq<u8>, field_count: int) -> bool {
    &&& buf.len() >= 4
    &&& u32_at(buf, 0) == buf.len()
    &&& buf.len() >= header_size(field_count)
    &&& offsets_valid(buf, field_count)
}

/// The error that decoding an invalid composite reports, following the order
/// of the checks: prefix presence, declared length, header extent, offsets.
pub open spec fn decode_error(buf: Seq<u8>, field_count: int) -> CodecError {
    if buf.len() < 4 {
        CodecError::TooShort
    } else if u32_at(buf, 0) != buf.len() {
        CodecError::LengthMismatch
    } else if buf.len() < header_size(field_count) {
        CodecError::TooShort
    } else {
        CodecError::InvalidOffsets
    }
}

/// The byte span of field `i` of a composite, as delimited by its offsets.
pub open spec fn field_span(buf: Seq<u8>, i: int) -> Seq<u8> {
    buf.subrange(decoded_offset(buf, i), decoded_offset(buf, i + 1))
}

/// Total byte length of a sequence of field values.
pub open spec fn sum_len(fields: Seq<Seq<u8>>) -> int
    decreases fields.len(),
{
    if fields.len() == 0 {
        0
    } else {
        sum_len(fields.drop_last()) + fields.last().len()
    }
}

/// Total size of the encoding of `fields`: header plus all field bytes.
pub open spec fn total_size(fields: Seq<Seq<u8>>) -> int {
    header_size(fields.len() as int) + sum_len(fields)
}

/// The offset at which field `i` starts inside the encoding of `fields`;
/// for `i == fields.len()` it is the final sentinel, the total size.
pub open spec fn field_offset(fields: Seq<Seq<u8>>, i: int) -> int {
    header_size(fields.len() as int) + sum_len(fields.take(i))
}

/// `buf` is the encoding of `fields`: it has exactly the computed total
/// size, declares that size in its length prefix, stores every cumulative
/// offset in its header, and carries each field's bytes in its slot.
pub open spec fn is_encoding(fields: Seq<Seq<u8>>, buf: Seq<u8>) -> bool {
    &&& buf.len() == total_size(fields)
    &&& u32_at(buf, 0) == total_size(fields)
    &&& forall|i: int|
        0 <= i <= fields.len() ==> #[trigger] decoded_offset(buf, i) == field_offset(fields, i)
    &&& forall|i: int|
        0 <= i < fields.len() ==> buf.subrange(
            #[trigger] field_offset(fields, i),
            field_offset(fields, i + 1),
        ) == fields[i]
}

/// The sequence of byte sequences held by a vector of field values.
pub open spec fn views_of(fields: Seq<Vec<u8>>) -> Seq<Seq<u8>> {
    fields.map(|i: int, f: Vec<u8>| f@)
}

pub proof fn lemma_sum_len_nonneg(fields: Seq<Seq<u8>>)
    ensures
        sum_len(fields) >= 0,
    decreases fields.len(),
{
    if fields.len() > 0 {
        lemma_sum_len_nonneg(fields.drop_last());
    }
}

pub proof fn lemma_sum_len_take_succ(fields: Seq<Seq<u8>>, i: int)
    requires
        0 <= i < fields.len(),
    ensures
        sum_len(fields.take(i + 1)) == sum_len(fields.take(i)) + fields[i].len(),
{
    assert(fields.take(i + 1).drop_last() =~= fields.take(i));
    assert(fields.take(i + 1).last() == fields[i]);
}

/// Field start offsets never decrease as the field index grows.
pub proof fn lemma_field_offset_mono(fields: Seq<Seq<u8>>, a: int, b: int)
    requires
        0 <= a <= b <= fields.len(),
    ensures
        field_offset(fields, a) <= field_offset(fields, b),
    decreases b - a,
{
    if a < b {
        lemma_sum_len_take_succ(fields, a);
        lemma_field_offset_mono(fields, a + 1, b);
    }
}

/// Every field offset lies between the header end and the total size, and
/// each field's slot ends where the next one starts.
pub proof fn lemma_field_offset_bounds(fields: Seq<Seq<u8>>, i: int)
    requires
        0 <= i <= fields.len(),
    ensures
        header_size(fields.len() as int) <= field_offset(fields, i) <= total_size(fields),
        i < fields.len() ==> field_offset(fields, i) + fields[i].len() == field_offset(
            fields,
            i + 1,
        ),
{
    lemma_sum_len_nonneg(fields.take(i));
    assert(fields.take(fields.len() as int) =~= fields);
    lemma_field_offset_mono(fields, i, fields.len() as int);
    if i < fields.len() {
        lemma_sum_len_take_succ(fields, i);
    }
}

/// In a well-formed offset table, offsets never decrease between any two
/// indices, not only adjacent ones.
pub proof fn lemma_decoded_offsets_mono(buf: Seq<u8>, field_count: int, i: int, j: int)
    requires
        offsets_valid(buf, field_count),
        0 <= i <= j <= field_count,
    ensures
        decoded_offset(buf, i) <= decoded_offset(buf, j),
    decreases j - i,
{
    if i < j {
        assert(decoded_offset(buf, i) <= decoded_offset(buf, i + 1));
        lemma_decoded_offsets_mono(buf, field_count, i + 1, j);
    }
}

/// A validated composite: the offset table that decoding extracted. Field
/// accessors take the buffer that was decoded; `wf` ties the two together.
#[derive(Debug)]
pub struct CompositeView {
    pub offsets: Vec<u32>,
}

impl CompositeView {
    /// The number of fields the table delimits.
    pub open spec fn spec_field_count(self) -> int {
        self.offsets@.len() - 1
    }

    /// The view was decoded from buffer contents `buf`: the composite is
    /// valid and the stored table is exactly the one in `buf`'s header.
    pub open spec fn wf(self, buf: Seq<u8>) -> bool {
        &&& self.offsets@.len() >= 1
        &&& composite_valid(buf, self.spec_field_count())
        &&& forall|i: int|
            0 <= i < self.offsets@.len() ==> self.offsets@[i] == decoded_offset(buf, i)
    }

    /// The number of fields.
    pub fn field_count(&self) -> (r: usize)
        requires
            self.offsets@.len() >= 1,
        ensures
            r == self.spec_field_count(),
    {
        self.offsets.len() - 1
    }

    /// Field `i` as a view into `buffer`. This cannot fail: decoding proved
    /// every adjacent offset pair to be an in-bounds, ordered range.
    pub fn field(&self, buffer: &Vec<u8>, i: usize) -> (r: ByteView)
        requires
            self.wf(buffer@),
            i < self.spec_field_count(),
        ensures
            r.start == decoded_offset(buffer@, i as int),
            r.end == decoded_offset(buffer@, i as int + 1),
            r.wf(buffer@),
            r.sel(buffer@) == field_span(buffer@, i as int),
    {
        let a = self.offsets[i];
        let b = self.offsets[i + 1];
        proof {
            let fc = self.spec_field_count();
            lemma_decoded_offsets_mono(buffer@, fc, i as int, i as int + 1);
            lemma_decoded_offsets_mono(buffer@, fc, i as int + 1, fc);
        }
        ByteView { start: a as usize, end: b as usize }
    }

    /// Field `i` copied out of `buffer`.
    pub fn field_bytes(&self, buffer: &Vec<u8>, i: usize) -> (r: Vec<u8>)
        requires
            self.wf(buffer@),
            i < self.spec_field_count(),
        ensures
            r@ == field_span(buffer@, i as int),
    {
        let v = self.field(buffer, i);
        v.bytes(buffer)
    }
}

/// Validates `buffer` as a composite of `field_count` fields (a schema fact,
/// not read from the data) and extracts its offset table. On success the
/// returned view holds exactly the offsets stored in the header; on failure
/// the error names the first structural check that failed.
pub fn decode_composite(buffer: &Vec<u8>, field_count: usize) -> (r: Result<
    CompositeView,
    CodecError,
>)
    ensures
        r is Ok <==> composite_valid(buffer@, field_count as int),
        r is Ok ==> r->Ok_0.wf(buffer@) && r->Ok_0.spec_field_count() == field_count,
        r is Err ==> r->Err_0 == decode_error(buffer@, field_count as int),
{
    let n: usize = buffer.len();
    if n < 4 {
        return Err(CodecError::TooShort);
    }
    let declared = read_u32_at(buffer, 0);
    if declared as u64 != n as u64 {
        return Err(CodecError::LengthMismatch);
    }
    if n < 8 || (n - 8) / 4 < field_count {
        proof {
            vstd::arithmetic::div_mod::lemma_fundamental_div_mod((n - 8) as int, 4);
        }
        return Err(CodecError::TooShort);
    }
    proof {
        vstd::arithmetic::div_mod::lemma_fundamental_div_mod((n - 8) as int, 4);
        assert(n >= 8 + 4 * (field_count as int));
    }
    let mut offsets: Vec<u32> = Vec::new();
    let mut i: usize = 0;
    while i <= field_count
        invariant
            i <= field_count + 1,
            offsets@.len() == i,
            forall|j: int| 0 <= j < i ==> offsets@[j] == decoded_offset(buffer@, j),
            n == buffer@.len(),
            n >= 8 + 4 * (field_count as int),
        decreases field_count + 1 - i,
    {
        let pos: usize = 4 + 4 * i;
        let o = read_u32_at(buffer, pos);
        offsets.push(o);
        i = i + 1;
    }
    let header: usize = 8 + 4 * field_count;
    if offsets[0] as u64 != header as u64 {
        return Err(CodecError::InvalidOffsets);
    }
    let mut k: usize = 0;
    while k < field_count
        invariant
            k <= field_count,
            n == buffer@.len(),
            n >= 8 + 4 * (field_count as int),
            u32_at(buffer@, 0) == n,
            offsets@.len() == field_count + 1,
            forall|j: int| 0 <= j <= field_count ==> offsets@[j] == decoded_offset(buffer@, j),
            forall|j: int|
                0 <= j < k ==> #[trigger] decoded_offset(buffer@, j) <= decoded_offset(
                    buffer@,
                    j + 1,
                ),
        decreases field_count - k,
    {
        if offsets[k] > offsets[k + 1] {
            return Err(CodecError::InvalidOffsets);
        }
        k = k + 1;
    }
    if offsets[field_count] as u64 != n as u64 {
        return Err(CodecError::InvalidOffsets);
    }
    Ok(CompositeView { offsets })
}

/// Appends all of `f`'s bytes to `out`.
fn append_bytes(out: &mut Vec<u8>, f: &Vec<u8>)
    ensures
        final(out)@ == old(out)@ + f@,
{
    let mut k: usize = 0;
    let flen = f.len();
    while k < flen
        invariant
            k <= f@.len() == flen,
            out@ == old(out)@ + f@.take(k as int),
        decreases flen - k,
    {
        out.push(f[k]);
        proof {
            assert(old(out)@ + f@.take(k + 1) =~= (old(out)@ + f@.take(k as int)).push(
                f@[k as int],
            ));
        }
        k = k + 1;
    }
    proof {
        assert(f@.take(flen as int) =~= f@);
    }
}

/// Growing a byte sequence at its end leaves every sub-range of the old
/// prefix unchanged.
pub proof fn lemma_prefix_stable(s1: Seq<u8>, s2: Seq<u8>)
    requires
        s1.len() <= s2.len(),
        s2.subrange(0, s1.len() as int) == s1,
    ensures
        forall|a: int, b: int|
            0 <= a <= b <= s1.len() ==> #[trigger] s2.subrange(a, b) == s1.subrange(a, b),
{
    assert forall|a: int, b: int|
        0 <= a <= b <= s1.len() implies #[trigger] s2.subrange(a, b) == s1.subrange(a, b) by {
        assert forall|x: int| 0 <= x < b - a implies s2.subrange(a, b)[x] == s1.subrange(a, b)[x]
        by {
            assert(s2.subrange(0, s1.len() as int)[a + x] == s2[a + x]);
        }
        assert(s2.subrange(a, b) =~= s1.subrange(a, b));
    }
}

/// Builds the one contiguous buffer that encodes `fields`: the total-length
/// prefix, the cumulative offset table with its final sentinel, then every
/// field's bytes in order. The total size must fit the 32-bit prefix.
pub fn encode(fields: &Vec<Vec<u8>>) -> (r: Vec<u8>)
    requires
        total_size(views_of(fields@)) <= 0xFFFF_FFFF,
    ensures
        is_encoding(views_of(fields@), r@),
{
    let ghost fvs = views_of(fields@);
    let fc = fields.len();
    proof {
        lemma_sum_len_nonneg(fvs);
        assert(fvs.len() == fc);
    }
    let header: usize = 8 + 4 * fc;
    let mut offsets: Vec<u32> = Vec::new();
    offsets.push(header as u32);
    proof {
        assert(fvs.take(0) =~= Seq::<Seq<u8>>::empty());
    }
    let mut off: usize = header;
    let mut i: usize = 0;
    while i < fc
        invariant
            i <= fc,
            fc == fields@.len(),
            fvs == views_of(fields@),
            total_size(fvs) <= 0xFFFF_FFFF,
            header == header_size(fc as int),
            offsets@.len() == i + 1,
            off == field_offset(fvs, i as int),
            forall|j: int| 0 <= j <= i ==> offsets@[j] == field_offset(fvs, j),
        decreases fc - i,
    {
        proof {
            lemma_field_offset_bounds(fvs, i as int);
            lemma_field_offset_bounds(fvs, i as int + 1);
            assert(fvs[i as int] == fields@[i as int]@);
        }
        off = off + fields[i].len();
        offsets.push(off as u32);
        i = i + 1;
    }
    proof {
        assert(fvs.take(fc as int) =~= fvs);
    }
    let total: usize = off;
    let mut out: Vec<u8> = Vec::new();
    push_u32_le(&mut out, total as u32);
    let mut j: usize = 0;
    while j <= fc
        invariant
            j <= fc + 1,
            fc == fields@.len(),
            fvs == views_of(fields@),
            total == total_size(fvs) <= 0xFFFF_FFFF,
            out@.len() == 4 + 4 * j,
            u32_at(out@, 0) == total_size(fvs),
            forall|m: int| 0 <= m < j ==> #[trigger] decoded_offset(out@, m) == field_offset(fvs, m),
            offsets@.len() == fc + 1,
            forall|m: int| 0 <= m <= fc ==> offsets@[m] == field_offset(fvs, m),
        decreases fc + 1 - j,
    {
        let ghost pre = out@;
        let o = offsets[j];
        push_u32_le(&mut out, o);
        proof {
            lemma_prefix_stable(pre, out@);
            assert(u32_at(out@, 0) == u32_at(pre, 0)) by {
                assert(out@.subrange(0, 4) == pre.subrange(0, 4));
            }
            assert forall|m: int| 0 <= m < j implies #[trigger] decoded_offset(out@, m)
                == field_offset(fvs, m) by {
                assert(out@.subrange(4 + 4 * m, 4 + 4 * m + 4) == pre.subrange(
                    4 + 4 * m,
                    4 + 4 * m + 4,
                ));
                assert(decoded_offset(pre, m) == field_offset(fvs, m));
            }
            lemma_field_offset_bounds(fvs, j as int);
            assert(decoded_offset(out@, j as int) == o);
        }
        j = j + 1;
    }
    let mut i2: usize = 0;
    while i2 < fc
        invariant
            i2 <= fc,
            fc == fields@.len(),
            fvs == views_of(fields@),
            total == total_size(fvs) <= 0xFFFF_FFFF,
            out@.len() == field_offset(fvs, i2 as int),
            u32_at(out@, 0) == total_size(fvs),
            forall|m: int|
                0 <= m <= fc ==> #[trigger] decoded_offset(out@, m) == field_offset(fvs, m),
            forall|m: int|
                0 <= m < i2 ==> out@.subrange(
                    #[trigger] field_offset(fvs, m),
                    field_offset(fvs, m + 1),
                ) == fvs[m],
        decreases fc - i2,
    {
        proof {
            lemma_field_offset_bounds(fvs, i2 as int);
            assert(fvs[i2 as int] == fields@[i2 as int]@);
        }
        let ghost pre = out@;
        append_bytes(&mut out, &fields[i2]);
        proof {
            assert(out@.subrange(0, pre.len() as int) =~= pre);
            lemma_prefix_stable(pre, out@);
            assert(u32_at(out@, 0) == u32_at(pre, 0)) by {
                assert(out@.subrange(0, 4) == pre.subrange(0, 4));
            }
            assert forall|m: int| 0 <= m <= fc implies #[trigger] decoded_offset(out@, m)
                == field_offset(fvs, m) by {
                assert(out@.subrange(4 + 4 * m, 4 + 4 * m + 4) == pre.subrange(
                    4 + 4 * m,
                    4 + 4 * m + 4,
                ));
                assert(decoded_offset(pre, m) == field_offset(fvs, m));
            }
            assert forall|m: int| 0 <= m < i2 implies out@.subrange(
                #[trigger] field_offset(fvs, m),
                field_offset(fvs, m + 1),
            ) == fvs[m] by {
                lemma_field_offset_mono(fvs, m + 1, i2 as int);
                lemma_field_offset_bounds(fvs, m);
                assert(out@.subrange(field_offset(fvs, m), field_offset(fvs, m + 1))
                    == pre.subrange(field_offset(fvs, m), field_offset(fvs, m + 1)));
            }
            assert(out@.subrange(field_offset(fvs, i2 as int), field_offset(fvs, i2 as int + 1))
                =~= fvs[i2 as int]);
        }
        i2 = i2 + 1;
    }
    proof {
        assert(fvs.take(fc as int) =~= fvs);
        assert(out@.len() == total_size(fvs));
    }
    out
}

/// Length invariant and monotonicity: a successfully decoded composite's
/// stored offset table starts at the header size, never decreases, and ends
/// at the buffer's length.
pub proof fn lemma_decoded_invariants(c: CompositeView, buf: Seq<u8>)
    requires
        c.wf(buf),
    ensures
        c.offsets@[0] == header_size(c.spec_field_count()),
        forall|i: int|
            0 <= i < c.spec_field_count() ==> #[trigger] c.offsets@[i] <= c.offsets@[i + 1],
        c.offsets@[c.spec_field_count()] == buf.len(),
{
    assert forall|i: int| 0 <= i < c.spec_field_count() implies #[trigger] c.offsets@[i]
        <= c.offsets@[i + 1] by {
        assert(c.offsets@[i] == decoded_offset(buf, i));
        assert(c.offsets@[i + 1] == decoded_offset(buf, i + 1));
    }
}

/// Round trip: any buffer `encode` produces is a valid composite of as many
/// fields as were encoded, and every field span reads back exactly the byte
/// sequence it was built from.
pub proof fn lemma_encode_round_trip(fields: Seq<Seq<u8>>, buf: Seq<u8>)
    requires
        is_encoding(fields, buf),
    ensures
        composite_valid(buf, fields.len() as int),
        forall|i: int| 0 <= i < fields.len() ==> #[trigger] field_span(buf, i) == fields[i],
{
    let fc = fields.len() as int;
    lemma_sum_len_nonneg(fields);
    assert(fields.take(0) =~= Seq::<Seq<u8>>::empty());
    assert(fields.take(fc) =~= fields);
    assert(decoded_offset(buf, 0) == field_offset(fields, 0));
    assert(decoded_offset(buf, fc) == field_offset(fields, fc));
    assert forall|i: int| 0 <= i < fc implies #[trigger] decoded_offset(buf, i) <= decoded_offset(
        buf,
        i + 1,
    ) by {
        assert(decoded_offset(buf, i) == field_offset(fields, i));
        assert(decoded_offset(buf, i + 1) == field_offset(fields, i + 1));
        lemma_field_offset_bounds(fields, i);
    }
    assert forall|i: int| 0 <= i < fc implies #[trigger] field_span(buf, i) == fields[i] by {
        assert(decoded_offset(buf, i) == field_offset(fields, i));
        assert(decoded_offset(buf, i + 1) == field_offset(fields, i + 1));
        assert(buf.subrange(field_offset(fields, i), field_offset(fields, i + 1)) == fields[i]);
    }
}

} // verus!
