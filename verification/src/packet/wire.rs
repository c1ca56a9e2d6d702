//! Big-endian integers as sequences of bytes: the model that every
//! fixed-width field of a packet is stated in.

use vstd::prelude::*;

verus! {

/// How many values `width` bytes can tell apart: 256 to the power `width`.
pub open spec fn radix(width: nat) -> nat
    decreases width,
{
    if width == 0 {
        1
    } else {
        256 * radix((width - 1) as nat)
    }
}

/// The number that `bytes` spell, most significant byte first.
pub open spec fn be_value(bytes: Seq<u8>) -> nat
    decreases bytes.len(),
{
    if bytes.len() == 0 {
        0
    } else {
        256 * be_value(bytes.drop_last()) + bytes.last() as nat
    }
}

/// The `width` low-order bytes of `value`, most significant byte first.
pub open spec fn be_bytes(value: nat, width: nat) -> Seq<u8>
    decreases width,
{
    if width == 0 {
        Seq::empty()
    } else {
        be_bytes(value / 256, (width - 1) as nat).push((value % 256) as u8)
    }
}

/// The two's-complement reading of `raw` as a signed field of `width` bytes.
pub open spec fn signed_of(raw: nat, width: nat) -> int {
    if 2 * raw >= radix(width) {
        raw - radix(width)
    } else {
        raw as int
    }
}

/// The two's-complement pattern of `value` in a field of `width` bytes.
pub open spec fn raw_of(value: int, width: nat) -> nat {
    if value < 0 {
        (value + radix(width)) as nat
    } else {
        value as nat
    }
}

/// `count` zero bytes.
pub open spec fn zeros(count: nat) -> Seq<u8> {
    Seq::new(count, |i: int| 0u8)
}

/// The radix of each field width a packet supports.
pub proof fn lemma_radix_values()
    ensures
        radix(0) == 1,
        radix(1) == 0x100,
        radix(2) == 0x1_0000,
        radix(3) == 0x100_0000,
        radix(4) == 0x1_0000_0000,
        radix(5) == 0x100_0000_0000,
        radix(6) == 0x1_0000_0000_0000,
        radix(7) == 0x100_0000_0000_0000,
        radix(8) == 0x1_0000_0000_0000_0000,
{
    reveal_with_fuel(radix, 9);
}

/// A radix is never zero, and a wider field has the larger radix.
pub proof fn lemma_radix_grows(narrow: nat, wide: nat)
    requires
        narrow <= wide,
    ensures
        0 < radix(narrow) <= radix(wide),
    decreases wide,
{
    if wide > 0 {
        if narrow == wide {
            lemma_radix_grows((narrow - 1) as nat, (wide - 1) as nat);
        } else {
            lemma_radix_grows(narrow, (wide - 1) as nat);
        }
    }
}

/// Encoding yields exactly `width` bytes.
pub proof fn lemma_be_bytes_len(value: nat, width: nat)
    ensures
        be_bytes(value, width).len() == width,
    decreases width,
{
    if width > 0 {
        lemma_be_bytes_len(value / 256, (width - 1) as nat);
    }
}

/// What a sequence of bytes spells fits in a field of its length.
pub proof fn lemma_be_value_bound(bytes: Seq<u8>)
    ensures
        be_value(bytes) < radix(bytes.len()),
    decreases bytes.len(),
{
    if bytes.len() > 0 {
        lemma_be_value_bound(bytes.drop_last());
    }
}

/// Decoding inverts encoding for every value that fits in the field.
pub proof fn lemma_be_value_of_bytes(value: nat, width: nat)
    requires
        value < radix(width),
    ensures
        be_value(be_bytes(value, width)) == value,
    decreases width,
{
    if width > 0 {
        let head = be_bytes(value / 256, (width - 1) as nat);
        lemma_be_value_of_bytes(value / 256, (width - 1) as nat);
        assert(be_bytes(value, width).drop_last() =~= head);
    }
}

/// Encoding inverts decoding for every sequence of bytes.
pub proof fn lemma_be_bytes_of_value(bytes: Seq<u8>)
    ensures
        be_bytes(be_value(bytes), bytes.len()) == bytes,
    decreases bytes.len(),
{
    if bytes.len() > 0 {
        lemma_be_bytes_of_value(bytes.drop_last());
    }
}

/// Reads the `width` bytes of `data` that start at `at` as one big-endian number.
pub fn be_read(data: &[u8], at: usize, width: usize) -> (value: u64)
    requires
        width <= 8,
        at + width <= data@.len(),
    ensures
        value == be_value(data@.subrange(at as int, at + width)),
        value < radix(width as nat),
{
    let mut value: u64 = 0;
    let mut i: usize = 0;
    proof {
        assert(data@.len() == data.len());
    }
    while i < width
        invariant
            i <= width <= 8,
            at + width <= data@.len() <= usize::MAX,
            value == be_value(data@.subrange(at as int, at + i)),
            value < radix(i as nat),
        decreases width - i,
    {
        proof {
            lemma_radix_values();
            assert(data@.subrange(at as int, at + i + 1).drop_last() =~= data@.subrange(
                at as int,
                at + i,
            ));
        }
        value = value * 256 + data[at + i] as u64;
        i = i + 1;
    }
    value
}

/// Stores `value` as `width` big-endian bytes in `data`, from index `at` on.
///
/// Only those `width` bytes change.
pub fn be_write(data: &mut Vec<u8>, at: usize, value: u64, width: usize)
    requires
        width <= 8,
        at + width <= old(data)@.len(),
    ensures
        final(data)@ == old(data)@.subrange(0, at as int) + be_bytes(value as nat, width as nat)
            + old(data)@.subrange(at + width, old(data)@.len() as int),
{
    let ghost initial = data@;
    let ghost encoded = be_bytes(value as nat, width as nat);
    let mut rest: u64 = value;
    let mut i: usize = width;
    proof {
        lemma_be_bytes_len(value as nat, width as nat);
        assert(initial.len() == data.len());
    }
    while i > 0
        invariant
            i <= width <= 8,
            at + width <= initial.len() <= usize::MAX,
            encoded.len() == width,
            encoded.subrange(0, i as int) == be_bytes(rest as nat, i as nat),
            data@ == initial.subrange(0, at + i) + encoded.subrange(i as int, width as int)
                + initial.subrange(at + width, initial.len() as int),
        decreases i,
    {
        proof {
            assert(encoded.subrange(0, i as int).last() == (rest % 256) as u8);
        }
        data[at + i - 1] = (rest % 256) as u8;
        rest = rest / 256;
        i = i - 1;
    }
}

/// Half the radix of a field of `width` bytes: the pattern of its sign bit.
pub fn sign_bit(width: usize) -> (half: u64)
    requires
        1 <= width <= 8,
    ensures
        2 * half == radix(width as nat),
        width < 8 ==> half <= 0x80_0000_0000_0000,
        width == 8 ==> half == 0x8000_0000_0000_0000,
{
    proof {
        lemma_radix_values();
    }
    if width == 1 {
        0x80
    } else if width == 2 {
        0x8000
    } else if width == 3 {
        0x80_0000
    } else if width == 4 {
        0x8000_0000
    } else if width == 5 {
        0x80_0000_0000
    } else if width == 6 {
        0x8000_0000_0000
    } else if width == 7 {
        0x80_0000_0000_0000
    } else {
        0x8000_0000_0000_0000
    }
}

/// The two's-complement reading of the pattern `raw` of a field of `width` bytes.
pub fn to_signed(raw: u64, width: usize) -> (value: i64)
    requires
        1 <= width <= 8,
        raw < radix(width as nat),
    ensures
        value == signed_of(raw as nat, width as nat),
{
    let half: u64 = sign_bit(width);
    if raw < half {
        raw as i64
    } else if width == 8 {
        (raw - half) as i64 + i64::MIN
    } else {
        (raw - half) as i64 - half as i64
    }
}

/// The two's-complement pattern of `value` in a field of `width` bytes.
pub fn to_raw(value: i64, width: usize) -> (raw: u64)
    requires
        1 <= width <= 8,
        -(radix(width as nat) / 2) <= value < radix(width as nat) / 2,
    ensures
        raw == raw_of(value as int, width as nat),
        raw < radix(width as nat),
{
    let half: u64 = sign_bit(width);
    if value >= 0 {
        value as u64
    } else if width == 8 {
        (value - i64::MIN) as u64 + half
    } else {
        (value + half as i64) as u64 + half
    }
}

} // verus!
