//! Bit packer/unpacker: writes and reads arbitrarily-wide unsigned integer
//! fields into/from a byte buffer at a running bit cursor, most-significant
//! bit first, crossing byte boundaries as needed.

use vstd::prelude::*;
use vstd::arithmetic::power2::{pow2, lemma_pow2_unfold, lemma2_to64, lemma2_to64_rest};
use crate::errors::Error;

verus! {

/// Bit `i` (0 = most significant) of a byte.
pub open spec fn byte_bit(b: u8, i: u8) -> bool {
    b & (0x80u8 >> i) != 0
}

/// The bit stream a byte buffer denotes: each byte contributes its eight
/// bits, most significant first.
pub open spec fn bits_of(bytes: Seq<u8>) -> Seq<bool> {
    Seq::new(bytes.len() * 8, |i: int| byte_bit(bytes[i / 8], (i % 8) as u8))
}

/// The `w` bits of `v`, most significant first.
pub open spec fn field_bits(v: u64, w: nat) -> Seq<bool> {
    Seq::new(w, |i: int| (v >> ((w - 1 - i) as u64)) & 1 == 1)
}

/// A run of `n` zero bits, as used for final-byte padding.
pub open spec fn zero_bits(n: nat) -> Seq<bool> {
    Seq::new(n, |i: int| false)
}

/// The unsigned value a bit string denotes, most significant bit first.
pub open spec fn value_of(s: Seq<bool>) -> nat
    decreases s.len(),
{
    if s.len() == 0 {
        0
    } else {
        2 * value_of(s.drop_last()) + (if s.last() { 1nat } else { 0nat })
    }
}

/// Reading back the bits of `v` recovers `v` exactly.
pub proof fn lemma_value_of_field_bits(v: u64, w: nat)
    requires
        w <= 64,
        v < pow2(w),
    ensures
        value_of(field_bits(v, w)) == v,
    decreases w,
{
    if w == 0 {
        lemma2_to64();
        assert(field_bits(v, 0) =~= Seq::<bool>::empty());
    } else {
        let half = v >> 1u64;
        assert((v >> 1u64) == v / 2) by (bit_vector);
        assert(pow2(w) == 2 * pow2((w - 1) as nat)) by {
            lemma_pow2_unfold(w);
        }
        assert(half < pow2((w - 1) as nat));
        assert(field_bits(v, w).drop_last() =~= field_bits(half, (w - 1) as nat)) by {
            assert forall|i: int| 0 <= i < w - 1 implies
                field_bits(v, w)[i] == #[trigger] field_bits(half, (w - 1) as nat)[i] by {
                let j = (w - 2 - i) as u64;
                assert(((v >> 1u64) >> j) & 1 == (v >> ((j + 1) as u64)) & 1) by (bit_vector)
                    requires j < 63,
                ;
            }
        }
        lemma_value_of_field_bits(half, (w - 1) as nat);
        assert(field_bits(v, w).last() == ((v >> 0u64) & 1 == 1));
        assert(((v >> 0u64) & 1 == 1) == (v % 2 == 1)) by (bit_vector);
        assert(value_of(field_bits(v, w)) == 2 * (v / 2) + v % 2);
    }
}

proof fn lemma_byte_bit_fresh(b: bool, j: u8)
    by (bit_vector)
    requires
        j < 8,
    ensures
        byte_bit(if b { 0x80u8 } else { 0u8 }, j) == (b && j == 0),
{
}

proof fn lemma_byte_bit_or(b: u8, k: u8, j: u8)
    by (bit_vector)
    requires
        k < 8,
        j < 8,
    ensures
        byte_bit(b | (0x80u8 >> k), j) == (j == k || byte_bit(b, j)),
{
}

/// A bit cursor over a growing byte buffer; fields are appended most
/// significant bit first, crossing byte boundaries as needed.
pub struct BitWriter {
    buf: Vec<u8>,
    len: usize,
}

impl BitWriter {
    /// Number of bits written so far.
    pub closed spec fn spec_len(self) -> nat {
        self.len as nat
    }

    /// The bit stream written so far.
    pub closed spec fn bits(self) -> Seq<bool> {
        bits_of(self.buf@).take(self.len as int)
    }

    /// The buffer holds exactly the written bits, padded with zero bits to a
    /// whole number of bytes.
    pub closed spec fn wf(self) -> bool {
        &&& self.buf@.len() == (self.len + 7) / 8
        &&& forall|i: int| self.len <= i < self.buf@.len() * 8 ==> !bits_of(self.buf@)[i]
    }

    pub fn new() -> (w: BitWriter)
        ensures
            w.wf(),
            w.bits() == Seq::<bool>::empty(),
            w.spec_len() == 0,
    {
        let w = BitWriter { buf: Vec::new(), len: 0 };
        proof {
            assert(w.bits() =~= Seq::<bool>::empty());
        }
        w
    }

    /// Append a single bit.
    pub fn push_bit(&mut self, b: bool)
        requires
            old(self).wf(),
            old(self).spec_len() < usize::MAX - 8,
        ensures
            final(self).wf(),
            final(self).bits() == old(self).bits().push(b),
            final(self).spec_len() == old(self).spec_len() + 1,
    {
        let k: usize = self.len % 8;
        let ghost old_bits = bits_of(self.buf@);
        if k == 0 {
            let nb: u8 = if b { 0x80 } else { 0 };
            self.buf.push(nb);
            proof {
                let new_bits = bits_of(self.buf@);
                assert forall|i: int| 0 <= i < new_bits.len() implies
                    new_bits[i] == if i < old(self).len {
                        old(self).bits()[i]
                    } else {
                        i == old(self).len && b
                    } by {
                    if i / 8 < old(self).buf@.len() {
                        assert(self.buf@[i / 8] == old(self).buf@[i / 8]);
                    } else {
                        assert(i / 8 == old(self).buf@.len());
                        assert(self.buf@[i / 8] == nb);
                        lemma_byte_bit_fresh(b, (i % 8) as u8);
                        assert(old(self).len == old(self).buf@.len() * 8);
                    }
                }
            }
            self.len = self.len + 1;
            proof {
                assert(self.bits() =~= old(self).bits().push(b));
            }
            return;
        }
        let idx: usize = self.len / 8;
        proof {
            assert(idx < self.buf@.len());
        }
        if b {
            let cur: u8 = self.buf[idx];
            let nb: u8 = cur | (0x80u8 >> (k as u8));
            self.buf.set(idx, nb);
            proof {
                let new_bits = bits_of(self.buf@);
                assert forall|i: int| 0 <= i < new_bits.len() implies
                    new_bits[i] == if i == old(self).len {
                        true
                    } else {
                        old_bits[i]
                    } by {
                    if i / 8 == idx {
                        lemma_byte_bit_or(cur, k as u8, (i % 8) as u8);
                        assert(old(self).len == idx * 8 + k);
                        if i != old(self).len {
                            assert((i % 8) as u8 != k as u8);
                        }
                    } else {
                        assert(self.buf@[i / 8] == old(self).buf@[i / 8]);
                    }
                }
            }
        } else {
            proof {
                assert(old(self).len < self.buf@.len() * 8);
                assert(!old_bits[old(self).len as int]);
            }
        }
        self.len = self.len + 1;
        proof {
            assert(self.bits() =~= old(self).bits().push(b));
        }
    }

    /// Append the low `w` bits of `v`, most significant first.
    pub fn push_field(&mut self, v: u64, w: u16)
        requires
            old(self).wf(),
            1 <= w <= 64,
            v < pow2(w as nat),
            old(self).spec_len() + w < usize::MAX - 8,
        ensures
            final(self).wf(),
            final(self).bits() == old(self).bits() + field_bits(v, w as nat),
            final(self).spec_len() == old(self).spec_len() + w,
    {
        let mut j: u16 = 0;
        while j < w
            invariant
                self.wf(),
                0 <= j <= w,
                w <= 64,
                self.spec_len() == old(self).spec_len() + j,
                old(self).spec_len() + w < usize::MAX - 8,
                self.bits() == old(self).bits() + field_bits(v, w as nat).take(j as int),
            decreases w - j,
        {
            let sh: u16 = w - 1 - j;
            let bit: bool = (v >> (sh as u64)) & 1 == 1;
            proof {
                assert(field_bits(v, w as nat)[j as int] == bit);
                assert(field_bits(v, w as nat).take(j as int + 1)
                    =~= field_bits(v, w as nat).take(j as int).push(bit));
            }
            self.push_bit(bit);
            j = j + 1;
            proof {
                assert(self.bits() =~= old(self).bits() + field_bits(v, w as nat).take(j as int));
            }
        }
        proof {
            assert(field_bits(v, w as nat).take(w as int) =~= field_bits(v, w as nat));
        }
    }

    /// Finish writing: the final byte is padded with zero bits.
    pub fn into_bytes(self) -> (out: Vec<u8>)
        requires
            self.wf(),
        ensures
            out@.len() == (self.spec_len() + 7) / 8,
            bits_of(out@) == self.bits() + zero_bits((out@.len() * 8 - self.spec_len()) as nat),
    {
        proof {
            assert(bits_of(self.buf@)
                =~= self.bits() + zero_bits((self.buf@.len() * 8 - self.len as int) as nat));
        }
        self.buf
    }
}

/// A bit cursor over a borrowed byte buffer; fields are read most
/// significant bit first from a running bit position.
pub struct BitReader<'a> {
    buf: &'a [u8],
    pos: usize,
}

impl<'a> BitReader<'a> {
    pub closed spec fn bits(self) -> Seq<bool> {
        bits_of(self.buf@)
    }

    pub closed spec fn spec_pos(self) -> nat {
        self.pos as nat
    }

    pub fn new(buf: &'a [u8]) -> (r: BitReader<'a>)
        ensures
            r.bits() == bits_of(buf@),
            r.spec_pos() == 0,
    {
        BitReader { buf, pos: 0 }
    }

    /// Read the next `w` bits as an unsigned value, advancing the cursor.
    pub fn read_field(&mut self, w: u16) -> (v: u64)
        requires
            1 <= w <= 64,
            old(self).spec_pos() + w <= old(self).bits().len(),
            old(self).spec_pos() + w <= usize::MAX,
        ensures
            final(self).bits() == old(self).bits(),
            final(self).spec_pos() == old(self).spec_pos() + w,
            v == value_of(old(self).bits().subrange(
                old(self).spec_pos() as int,
                old(self).spec_pos() + w,
            )),
            v < pow2(w as nat),
    {
        let ghost start = self.pos as int;
        let mut acc: u64 = 0;
        let mut j: u16 = 0;
        proof {
            lemma2_to64();
            assert(self.bits().subrange(start, start) =~= Seq::<bool>::empty());
        }
        while j < w
            invariant
                0 <= j <= w,
                w <= 64,
                0 <= start,
                start + w <= usize::MAX,
                self.buf@ == old(self).buf@,
                self.pos == start + j,
                start + w <= self.bits().len(),
                acc == value_of(self.bits().subrange(start, start + j)),
                acc < pow2(j as nat),
            decreases w - j,
        {
            proof {
                assert(self.buf@.len() * 8 == self.bits().len());
                assert(self.pos < self.buf@.len() * 8);
                assert(self.pos / 8 < self.buf@.len());
            }
            let idx: usize = self.pos / 8;
            let k: u8 = (self.pos % 8) as u8;
            let bit: bool = self.buf[idx] & (0x80u8 >> k) != 0;
            proof {
                assert(self.bits()[self.pos as int] == byte_bit(self.buf@[self.pos as int / 8],
                    (self.pos as int % 8) as u8));
                assert(bit == self.bits()[start + j]);
                assert(self.bits().subrange(start, start + j + 1).drop_last()
                    =~= self.bits().subrange(start, start + j));
                assert(self.bits().subrange(start, start + j + 1).last()
                    == self.bits()[start + j]);
                assert(pow2((j + 1) as nat) == 2 * pow2(j as nat)) by {
                    lemma_pow2_unfold((j + 1) as nat);
                }
                lemma2_to64();
                lemma2_to64_rest();
                assert(pow2(j as nat) <= pow2(64)) by {
                    if j < 64 {
                        vstd::arithmetic::power2::lemma_pow2_strictly_increases(j as nat, 64);
                    }
                }
            }
            acc = if bit { 2 * acc + 1 } else { 2 * acc };
            self.pos = self.pos + 1;
            j = j + 1;
        }
        proof {
            assert(self.bits() =~= old(self).bits());
        }
        acc
    }
}

/// Total bit width of an ordered field-width table.
pub open spec fn total_bits(widths: Seq<u16>) -> nat
    decreases widths.len(),
{
    if widths.len() == 0 {
        0
    } else {
        total_bits(widths.drop_last()) + widths.last() as nat
    }
}

/// The bit stream an ordered list of (value, width) fields denotes.
pub open spec fn fields_bits(fields: Seq<(u64, u16)>) -> Seq<bool>
    decreases fields.len(),
{
    if fields.len() == 0 {
        Seq::empty()
    } else {
        fields_bits(fields.drop_last()) + field_bits(fields.last().0, fields.last().1 as nat)
    }
}

/// Every field's width is in range and its value fits that width.
pub open spec fn fields_fit(fields: Seq<(u64, u16)>) -> bool {
    forall|i: int| 0 <= i < fields.len() ==> 1 <= (#[trigger] fields[i]).1 <= 64
        && fields[i].0 < pow2(fields[i].1 as nat)
}

/// Every width of a table is in range.
pub open spec fn widths_ok(widths: Seq<u16>) -> bool {
    forall|i: int| 0 <= i < widths.len() ==> 1 <= #[trigger] widths[i] <= 64
}

proof fn lemma_total_bits_step(widths: Seq<u16>, k: int)
    requires
        0 <= k < widths.len(),
    ensures
        total_bits(widths.take(k + 1)) == total_bits(widths.take(k)) + widths[k],
{
    assert(widths.take(k + 1).drop_last() =~= widths.take(k));
}

proof fn lemma_total_bits_prefix(widths: Seq<u16>, k: int)
    requires
        0 <= k <= widths.len(),
    ensures
        total_bits(widths.take(k)) <= total_bits(widths),
    decreases widths.len() - k,
{
    if k == widths.len() {
        assert(widths.take(k) =~= widths);
    } else {
        lemma_total_bits_step(widths, k);
        lemma_total_bits_prefix(widths, k + 1);
    }
}

/// Pack an ordered list of (value, width) fields into a byte buffer, most
/// significant bit first, crossing byte boundaries as needed; the final byte
/// is padded with zero bits. Never fails: the caller guarantees that each
/// value fits its declared width.
pub fn pack_fields(fields: &Vec<(u64, u16)>) -> (out: Vec<u8>)
    requires
        fields_fit(fields@),
        fields@.len() * 64 < usize::MAX - 72,
    ensures
        out@.len() == (fields_bits(fields@).len() + 7) / 8,
        bits_of(out@) == fields_bits(fields@) + zero_bits(
            (out@.len() * 8 - fields_bits(fields@).len()) as nat,
        ),
{
    let mut w = BitWriter::new();
    let mut i: usize = 0;
    proof {
        assert(fields@.take(0) =~= Seq::<(u64, u16)>::empty());
    }
    while i < fields.len()
        invariant
            w.wf(),
            0 <= i <= fields@.len(),
            fields_fit(fields@),
            fields@.len() * 64 < usize::MAX - 72,
            w.spec_len() <= i * 64,
            w.bits() == fields_bits(fields@.take(i as int)),
        decreases fields@.len() - i,
    {
        let (v, width) = fields[i];
        w.push_field(v, width);
        proof {
            assert(fields@.take(i + 1).drop_last() =~= fields@.take(i as int));
            assert(fields@.take(i + 1).last() == fields@[i as int]);
        }
        i = i + 1;
    }
    proof {
        assert(fields@.take(fields@.len() as int) =~= fields@);
        assert(w.bits().len() == w.spec_len());
    }
    w.into_bytes()
}

/// Unpack a byte buffer against an ordered width table: reads exactly the
/// bits the table declares, most significant bit first; trailing bits and
/// bytes beyond the layout are ignored. Fails with `ShortBuffer` carrying
/// the needed and the available bit counts when the buffer is too short.
pub fn unpack_fields(buf: &[u8], widths: &Vec<u16>) -> (r: Result<Vec<u64>, Error>)
    requires
        widths_ok(widths@),
        widths@.len() * 64 < usize::MAX - 8,
    ensures
        total_bits(widths@) > buf@.len() * 8 ==> r == Err::<Vec<u64>, Error>(Error::ShortBuffer(
            total_bits(widths@) as usize,
            (buf@.len() * 8) as usize,
        )),
        total_bits(widths@) <= buf@.len() * 8 ==> r is Ok,
        r matches Ok(vals) ==> vals@.len() == widths@.len() && forall|k: int|
            0 <= k < widths@.len() ==> #[trigger] vals@[k] == value_of(
                bits_of(buf@).subrange(
                    total_bits(widths@.take(k)) as int,
                    total_bits(widths@.take(k)) as int + widths@[k],
                ),
            ),
{
    let mut total: usize = 0;
    let mut i: usize = 0;
    proof {
        assert(widths@.take(0) =~= Seq::<u16>::empty());
    }
    while i < widths.len()
        invariant
            0 <= i <= widths@.len(),
            widths_ok(widths@),
            widths@.len() * 64 < usize::MAX - 8,
            total == total_bits(widths@.take(i as int)),
            total <= i * 64,
        decreases widths@.len() - i,
    {
        proof {
            lemma_total_bits_step(widths@, i as int);
        }
        total = total + widths[i] as usize;
        i = i + 1;
    }
    proof {
        assert(widths@.take(widths@.len() as int) =~= widths@);
    }
    if (total + 7) / 8 > buf.len() {
        return Err(Error::ShortBuffer(total, buf.len() * 8));
    }
    let mut rd = BitReader::new(buf);
    let mut vals: Vec<u64> = Vec::new();
    let mut k: usize = 0;
    proof {
        assert(widths@.take(0) =~= Seq::<u16>::empty());
    }
    while k < widths.len()
        invariant
            0 <= k <= widths@.len(),
            widths_ok(widths@),
            widths@.len() * 64 < usize::MAX - 8,
            rd.bits() == bits_of(buf@),
            total_bits(widths@) <= buf@.len() * 8,
            total_bits(widths@) <= usize::MAX,
            rd.spec_pos() == total_bits(widths@.take(k as int)),
            vals@.len() == k,
            forall|j: int| 0 <= j < k ==> #[trigger] vals@[j] == value_of(
                bits_of(buf@).subrange(
                    total_bits(widths@.take(j)) as int,
                    total_bits(widths@.take(j)) as int + widths@[j],
                ),
            ),
        decreases widths@.len() - k,
    {
        proof {
            lemma_total_bits_step(widths@, k as int);
            lemma_total_bits_prefix(widths@, k as int + 1);
        }
        let v: u64 = rd.read_field(widths[k]);
        vals.push(v);
        k = k + 1;
    }
    Ok(vals)
}

/// A byte buffer is determined by its bit stream: two buffers of one length
/// with equal bits are equal byte for byte. With `encode`'s contract this
/// makes the wire bytes of a report unique — repeated encodes of equal
/// inputs are byte-identical.
pub proof fn lemma_bits_determine_bytes(a: Seq<u8>, b: Seq<u8>)
    requires
        a.len() == b.len(),
        bits_of(a) == bits_of(b),
    ensures
        a == b,
{
    assert forall|i: int| 0 <= i < a.len() implies a[i] == b[i] by {
        assert forall|j: u8| j < 8 implies byte_bit(a[i], j) == #[trigger] byte_bit(b[i], j) by {
            let k = 8 * i + j;
            vstd::arithmetic::div_mod::lemma_fundamental_div_mod_converse(k, 8, i, j as int);
            assert(k / 8 == i && k % 8 == j as int);
            assert(bits_of(a)[k] == byte_bit(a[k / 8], (k % 8) as u8));
            assert(bits_of(b)[k] == byte_bit(b[k / 8], (k % 8) as u8));
            assert(bits_of(a)[k] == bits_of(b)[k]);
        }
        let x = a[i];
        let y = b[i];
        assert(x == y) by (bit_vector)
            requires
                byte_bit(x, 0) == byte_bit(y, 0),
                byte_bit(x, 1) == byte_bit(y, 1),
                byte_bit(x, 2) == byte_bit(y, 2),
                byte_bit(x, 3) == byte_bit(y, 3),
                byte_bit(x, 4) == byte_bit(y, 4),
                byte_bit(x, 5) == byte_bit(y, 5),
                byte_bit(x, 6) == byte_bit(y, 6),
                byte_bit(x, 7) == byte_bit(y, 7),
        ;
    }
    assert(a =~= b);
}

} // verus!
