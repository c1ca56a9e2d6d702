//! Bytes as a stream of bits, most significant bit of the first byte first,
//! and the two loops that move a field of up to 32 bits in and out of it.

use vstd::prelude::*;

verus! {

/// The bit at `index` of the stream: 0 or 1.
///
/// Bit 0 is the most significant bit of byte 0, bit 8 that of byte 1.
pub open spec fn bit_at(bytes: Seq<u8>, index: int) -> nat {
    ((bytes[index / 8] as u64 >> ((7 - index % 8) as u64)) & 1) as nat
}

/// The number `acc` followed by the `count` bits that start at bit `start`.
///
/// Each bit doubles what came before it and adds itself.
pub open spec fn append_bits(acc: nat, bytes: Seq<u8>, start: int, count: nat) -> nat
    decreases count,
{
    if count == 0 {
        acc
    } else {
        2 * append_bits(acc, bytes, start, (count - 1) as nat) + bit_at(bytes, start + count - 1)
    }
}

/// The unsigned number that the `count` bits from bit `start` spell, first bit most significant.
pub open spec fn bits_value(bytes: Seq<u8>, start: int, count: nat) -> nat {
    append_bits(0, bytes, start, count)
}

/// The number whose `count` low bits are set: 2 to the power `count`, less one.
pub open spec fn low_mask(count: u64) -> u64 {
    ((1u64 << count) - 1) as u64
}

/// `after` is `before` with the `count` low bits of `value` stored from bit `start` on.
///
/// The field spells those bits, first bit most significant, and every bit and
/// every byte outside the field is as it was.
pub open spec fn holds_field(after: Seq<u8>, before: Seq<u8>, start: int, count: nat, value: u64) -> bool {
    &&& after.len() == before.len()
    &&& bits_value(after, start, count) == value & low_mask(count as u64)
    &&& forall|i: int|
        0 <= i < 8 * before.len() && !(start <= i < start + count) ==> #[trigger] bit_at(after, i)
            == bit_at(before, i)
    &&& forall|j: int|
        0 <= j < before.len() && (8 * j + 8 <= start || start + count <= 8 * j)
            ==> #[trigger] after[j] == before[j]
}

/// Where the next bit is read or written: a byte and a bit within it.
#[derive(Clone, Copy, Debug, PartialEq, Eq, Structural)]
pub struct BitCursor {
    /// The index of the byte that holds the next bit.
    pub byte_index: usize,
    /// How many bits of that byte are already used: 0 to 7.
    pub bit_offset: usize,
}

impl BitCursor {
    /// The bit offset is below 8.
    pub open spec fn wf(self) -> bool {
        self.bit_offset < 8
    }

    /// The index of the next bit in the stream.
    pub open spec fn position(self) -> int {
        8 * self.byte_index + self.bit_offset
    }

    /// Whether `bit_count` bits from the cursor on lie within `total_bytes` bytes.
    pub fn has_room(&self, total_bytes: usize, bit_count: usize) -> (fits: bool)
        requires
            self.wf(),
        ensures
            fits == (self.position() + bit_count <= 8 * total_bytes),
    {
        if self.byte_index > total_bytes {
            return false;
        }
        let bytes_left: usize = total_bytes - self.byte_index;
        let bytes_needed: usize = bit_count / 8 + (bit_count % 8 + self.bit_offset + 7) / 8;
        bytes_needed <= bytes_left
    }

    /// The index of the next bit in the stream, where it fits in `usize`.
    pub fn bit_position(&self) -> (position: usize)
        requires
            self.position() <= usize::MAX,
        ensures
            position == self.position(),
    {
        self.byte_index * 8 + self.bit_offset
    }
}

/// Appending `first + second` bits is appending `first` bits and then `second` more.
pub proof fn lemma_append_split(acc: nat, bytes: Seq<u8>, start: int, first: nat, second: nat)
    ensures
        append_bits(acc, bytes, start, first + second) == append_bits(
            append_bits(acc, bytes, start, first),
            bytes,
            start + first,
            second,
        ),
    decreases second,
{
    if second > 0 {
        lemma_append_split(acc, bytes, start, first, (second - 1) as nat);
    }
}

/// What is appended depends only on the bits in the range.
pub proof fn lemma_append_same_bits(acc: nat, a: Seq<u8>, b: Seq<u8>, start: int, count: nat)
    requires
        forall|i: int| start <= i < start + count ==> bit_at(a, i) == bit_at(b, i),
    ensures
        append_bits(acc, a, start, count) == append_bits(acc, b, start, count),
    decreases count,
{
    if count > 0 {
        lemma_append_same_bits(acc, a, b, start, (count - 1) as nat);
    }
}

/// The bits of a part of the bytes are the bits of the bytes, eight times the part's start further on.
pub proof fn lemma_append_in_part(
    acc: nat,
    bytes: Seq<u8>,
    from: int,
    to: int,
    start: int,
    count: nat,
)
    requires
        0 <= from <= to <= bytes.len(),
        0 <= start,
        start + count <= 8 * (to - from),
    ensures
        append_bits(acc, bytes.subrange(from, to), start, count) == append_bits(
            acc,
            bytes,
            8 * from + start,
            count,
        ),
    decreases count,
{
    if count > 0 {
        lemma_append_in_part(acc, bytes, from, to, start, (count - 1) as nat);
    }
}

/// Appending bits that lie within one byte is a shift, and an or with a piece of that byte.
pub proof fn lemma_append_in_byte(acc: u64, bytes: Seq<u8>, byte_index: int, offset: u64, count: u64)
    requires
        0 <= byte_index < bytes.len(),
        offset + count <= 8,
        acc <= 0xffff_ffff,
    ensures
        append_bits(acc as nat, bytes, 8 * byte_index + offset, count as nat) == (acc << count) | ((
        bytes[byte_index] as u64 >> ((8 - offset - count) as u64)) & low_mask(count)),
    decreases count,
{
    let byte = bytes[byte_index] as u64;
    let shift = (8 - offset - count) as u64;
    if count == 0 {
        assert((acc << 0u64) | ((byte >> shift) & low_mask(0u64)) == acc) by (bit_vector);
    } else {
        let fewer = (count - 1) as u64;
        let deeper = (shift + 1) as u64;
        lemma_append_in_byte(acc, bytes, byte_index, offset, fewer);
        assert(2 * ((acc << fewer) | ((byte >> deeper) & low_mask(fewer))) + ((byte >> shift) & 1)
            == (acc << count) | ((byte >> shift) & low_mask(count))) by (bit_vector)
            requires
                acc <= 0xffff_ffff,
                1 <= count <= 8,
                shift + count <= 8,
                fewer == count - 1,
                deeper == shift + 1,
                byte <= 0xff,
        ;
    }
}

/// A number below 2 to the power `count` has no bit outside its `count` low bits.
pub proof fn lemma_low_mask_keeps(value: u64, count: u64)
    requires
        count <= 32,
        value < (1u64 << count),
    ensures
        value & low_mask(count) == value,
{
    assert(value & low_mask(count) == value) by (bit_vector)
        requires
            count <= 32,
            value < (1u64 << count),
    ;
}

/// The mask of `count` low bits.
pub(crate) fn mask_of(count: u64) -> (mask: u64)
    requires
        count <= 32,
    ensures
        mask == low_mask(count),
        mask <= 0xffff_ffff,
{
    assert((1u64 << count) >= 1 && ((1u64 << count) - 1) as u64 <= 0xffff_ffff) by (bit_vector)
        requires
            count <= 32,
    ;
    (1u64 << count) - 1
}

/// Reads the `count` bits at `cursor` and returns them with the cursor behind them.
pub(crate) fn read_field(buffer: &[u8], cursor: BitCursor, count: usize) -> (out: (u64, BitCursor))
    requires
        cursor.wf(),
        count <= 32,
        cursor.position() + count <= 8 * buffer@.len(),
    ensures
        out.0 == bits_value(buffer@, cursor.position(), count as nat),
        out.0 <= 0xffff_ffff,
        out.1.wf(),
        out.1.position() == cursor.position() + count,
{
    let ghost start = cursor.position();
    let mut result: u64 = 0;
    let mut remaining: usize = count;
    let mut byte_index: usize = cursor.byte_index;
    let mut bit_offset: usize = cursor.bit_offset;
    while remaining > 0
        invariant
            bit_offset < 8,
            remaining <= count <= 32,
            8 * byte_index + bit_offset == start + (count - remaining),
            start + count <= 8 * buffer@.len(),
            result == bits_value(buffer@, start, (count - remaining) as nat),
            result <= low_mask((count - remaining) as u64),
        decreases remaining,
    {
        let in_byte: usize = 8 - bit_offset;
        let take: usize = if in_byte < remaining {
            in_byte
        } else {
            remaining
        };
        let shift: usize = in_byte - take;
        let byte: u64 = buffer[byte_index] as u64;
        let mask: u64 = mask_of(take as u64);
        let chunk: u64 = (byte >> (shift as u64)) & mask;
        let ghost done = (count - remaining) as nat;
        let ghost before = result;
        proof {
            let d = done as u64;
            let t = take as u64;
            assert(chunk <= low_mask(t)) by (bit_vector)
                requires
                    chunk == (byte >> (shift as u64)) & mask,
                    mask == low_mask(t),
            ;
            assert(before <= 0xffff_ffff && ((before << t) | chunk) <= low_mask((d + t) as u64))
                by (bit_vector)
                requires
                    before <= low_mask(d),
                    chunk <= low_mask(t),
                    d + t <= 32,
                    1 <= t <= 8,
            ;
            lemma_append_split(0, buffer@, start, done, take as nat);
            lemma_append_in_byte(before, buffer@, byte_index as int, bit_offset as u64, t);
        }
        result = (result << (take as u64)) | chunk;
        bit_offset = bit_offset + take;
        remaining = remaining - take;
        if bit_offset == 8 {
            byte_index = byte_index + 1;
            bit_offset = 0;
        }
    }
    assert(low_mask(count as u64) <= 0xffff_ffff) by (bit_vector)
        requires
            count <= 32,
    ;
    (result, BitCursor { byte_index, bit_offset })
}

/// The byte `byte` with the `count` bits that end `shift` bits above its low end replaced by `chunk`.
pub open spec fn patched_byte(byte: u64, shift: u64, count: u64, chunk: u64) -> u64 {
    (byte & !(low_mask(count) << shift)) | (chunk << shift)
}

/// Replacing a piece of one byte stores the piece and leaves every other bit of the stream.
pub proof fn lemma_patch_byte(bytes: Seq<u8>, byte_index: int, offset: u64, count: u64, chunk: u64)
    requires
        0 <= byte_index < bytes.len(),
        offset + count <= 8,
        chunk <= low_mask(count),
    ensures
        ({
            let shift = (8 - offset - count) as u64;
            let updated = patched_byte(bytes[byte_index] as u64, shift, count, chunk);
            let patched = bytes.update(byte_index, updated as u8);
            &&& updated <= 0xff
            &&& (updated >> shift) & low_mask(count) == chunk
            &&& forall|i: int|
                0 <= i < 8 * bytes.len() && !(8 * byte_index + offset <= i < 8 * byte_index + offset
                    + count) ==> #[trigger] bit_at(patched, i) == bit_at(bytes, i)
        }),
{
    let shift = (8 - offset - count) as u64;
    let byte = bytes[byte_index] as u64;
    let updated = patched_byte(byte, shift, count, chunk);
    let patched = bytes.update(byte_index, updated as u8);
    assert(updated <= 0xff && (updated >> shift) & low_mask(count) == chunk) by (bit_vector)
        requires
            updated == patched_byte(byte, shift, count, chunk),
            byte <= 0xff,
            shift + count <= 8,
            chunk <= low_mask(count),
    ;
    assert forall|i: int|
        0 <= i < 8 * bytes.len() && !(8 * byte_index + offset <= i < 8 * byte_index + offset
            + count) implies #[trigger] bit_at(patched, i) == bit_at(bytes, i) by {
        if i / 8 == byte_index {
            let low = (7 - i % 8) as u64;
            assert((updated >> low) & 1 == (byte >> low) & 1) by (bit_vector)
                requires
                    updated == patched_byte(byte, shift, count, chunk),
                    shift + count <= 8,
                    chunk <= low_mask(count),
                    low < 8,
                    low < shift || low >= shift + count,
            ;
        }
    }
}

/// Writes the `count` low bits of `value` at `cursor` and returns the cursor behind them.
///
/// The first bit written is the most significant of the `count`. Every bit
/// outside the field keeps its value.
pub(crate) fn write_field(buffer: &mut Vec<u8>, cursor: BitCursor, value: u64, count: usize) -> (next:
    BitCursor)
    requires
        cursor.wf(),
        count <= 32,
        cursor.position() + count <= 8 * old(buffer)@.len(),
    ensures
        next.wf(),
        next.position() == cursor.position() + count,
        holds_field(final(buffer)@, old(buffer)@, cursor.position(), count as nat, value),
{
    let ghost start = cursor.position();
    let ghost initial = buffer@;
    assert(initial.len() == buffer.len());
    let masked: u64 = value & mask_of(count as u64);
    let mut remaining: usize = count;
    let mut byte_index: usize = cursor.byte_index;
    let mut bit_offset: usize = cursor.bit_offset;
    proof {
        let c = count as u64;
        assert(masked <= 0xffff_ffff && masked >> c == 0) by (bit_vector)
            requires
                masked == value & low_mask(c),
                c <= 32,
        ;
    }
    while remaining > 0
        invariant
            bit_offset < 8,
            remaining <= count <= 32,
            8 * byte_index + bit_offset == start + (count - remaining),
            start + count <= 8 * buffer@.len(),
            buffer@.len() == initial.len(),
            initial.len() <= usize::MAX,
            0 <= start,
            masked <= 0xffff_ffff,
            bits_value(buffer@, start, (count - remaining) as nat) == masked >> (remaining as u64),
            forall|i: int|
                0 <= i < 8 * initial.len() && !(start <= i < start + (count - remaining))
                    ==> #[trigger] bit_at(buffer@, i) == bit_at(initial, i),
            forall|j: int|
                0 <= j < initial.len() && (8 * j + 8 <= start || start + (count - remaining) <= 8
                    * j) ==> #[trigger] buffer@[j] == initial[j],
        decreases remaining,
    {
        let in_byte: usize = 8 - bit_offset;
        let take: usize = if in_byte < remaining {
            in_byte
        } else {
            remaining
        };
        let value_shift: usize = remaining - take;
        let mask: u64 = mask_of(take as u64);
        let chunk: u64 = (masked >> (value_shift as u64)) & mask;
        let shift: usize = in_byte - take;
        let byte: u64 = buffer[byte_index] as u64;
        let ghost before = buffer@;
        let ghost done = (count - remaining) as nat;
        let ghost top = masked >> (remaining as u64);
        proof {
            let t = take as u64;
            let r = remaining as u64;
            let vs = value_shift as u64;
            assert(chunk <= low_mask(t) && top <= 0xffff_ffff && (top << t) | chunk == masked >> vs)
                by (bit_vector)
                requires
                    chunk == (masked >> vs) & low_mask(t),
                    top == masked >> r,
                    r == vs + t,
                    1 <= t <= 8,
                    r <= 32,
                    masked <= 0xffff_ffff,
            ;
            lemma_patch_byte(before, byte_index as int, bit_offset as u64, t, chunk);
        }
        let updated: u64 = (byte & !(mask << (shift as u64))) | (chunk << (shift as u64));
        buffer[byte_index] = updated as u8;
        proof {
            let t = take as u64;
            lemma_append_same_bits(0, buffer@, before, start, done);
            lemma_append_split(0, buffer@, start, done, take as nat);
            lemma_append_in_byte(top, buffer@, byte_index as int, bit_offset as u64, t);
        }
        bit_offset = bit_offset + take;
        remaining = remaining - take;
        if bit_offset == 8 {
            byte_index = byte_index + 1;
            bit_offset = 0;
        }
    }
    proof {
        assert(masked >> 0u64 == masked) by (bit_vector);
    }
    BitCursor { byte_index, bit_offset }
}

} // verus!
