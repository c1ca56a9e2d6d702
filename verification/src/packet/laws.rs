//! What holds of the encodings whatever the values: what is written is what
//! is read, growth keeps what was written, and decryption undoes encryption.

use crate::packet::alt::flipped;
use crate::packet::alt::high_byte;
use crate::packet::alt::low_byte;
use crate::packet::alt::mirrored;
use crate::packet::alt::pair_value;
use crate::packet::alt::shifted;
use crate::packet::bitmodel::bits_value;
use crate::packet::bitmodel::holds_field;
use crate::packet::bitmodel::lemma_append_in_part;
use crate::packet::bitmodel::lemma_append_same_bits;
use crate::packet::bitmodel::lemma_low_mask_keeps;
use crate::packet::bytes::grown_capacity;
use crate::packet::bytes::PacketView;
use crate::packet::cipher::block_words;
use crate::packet::cipher::cipher_block;
use crate::packet::cipher::cipher_bytes;
use crate::packet::cipher::decrypt_block_spec;
use crate::packet::cipher::decrypt_bytes;
use crate::packet::cipher::encrypt_block_spec;
use crate::packet::cipher::encrypt_bytes;
use crate::packet::cipher::lemma_block_of_words;
use crate::packet::cipher::lemma_rounds_undone;
use crate::packet::cipher::lemma_words_of_block;
use crate::packet::cipher::words_block;
use crate::packet::cipher::ROUNDS;
use crate::packet::smart::lemma_leading_byte;
use crate::packet::smart::smart16_bytes;
use crate::packet::smart::smart32_bytes;
use crate::packet::smart::SMART16_COMPACT_MAX;
use crate::packet::smart::SMART16_MAX;
use crate::packet::smart::SMART32_COMPACT_MAX;
use crate::packet::smart::SMART32_COMPACT_MIN;
use crate::packet::smart::SMART32_MAX;
use crate::packet::smart::SMART32_MIN;
use crate::packet::wire::be_bytes;
use crate::packet::wire::be_value;
use crate::packet::wire::lemma_be_bytes_len;
use crate::packet::wire::lemma_be_value_of_bytes;
use crate::packet::wire::lemma_radix_values;
use crate::packet::wire::radix;
use crate::packet::wire::raw_of;
use crate::packet::wire::signed_of;
use vstd::arithmetic::power2::pow2;
use vstd::prelude::*;

verus! {

/// The bytes of `value` as a field of `width` bytes, signed or unsigned.
pub open spec fn field_bytes(value: int, width: nat, signed: bool) -> Seq<u8> {
    if signed {
        be_bytes(raw_of(value, width), width)
    } else {
        be_bytes(value as nat, width)
    }
}

/// The value that `bytes` spell as one field, signed or unsigned.
pub open spec fn field_value(bytes: Seq<u8>, signed: bool) -> int {
    if signed {
        signed_of(be_value(bytes), bytes.len())
    } else {
        be_value(bytes) as int
    }
}

/// Whether `value` is one of the values of a field of `width` bytes.
pub open spec fn fits_field(value: int, width: nat, signed: bool) -> bool {
    if signed {
        -(radix(width) / 2) <= value < radix(width) / 2
    } else {
        0 <= value < radix(width)
    }
}

/// The buffer after each of `values` was written as a field of `width` bytes, in order.
pub open spec fn written_all(start: PacketView, values: Seq<int>, width: nat, signed: bool) -> PacketView
    decreases values.len(),
{
    if values.len() == 0 {
        start
    } else {
        written_all(
            start.put(field_bytes(values[0], width, signed)),
            values.drop_first(),
            width,
            signed,
        )
    }
}

/// Whether `count` fields of `width` bytes can be read in a row.
pub open spec fn can_read_all(start: PacketView, count: nat, width: nat) -> bool
    decreases count,
{
    count == 0 || (start.can_take(width) && can_read_all(
        start.skipped(width),
        (count - 1) as nat,
        width,
    ))
}

/// The values of the `count` fields of `width` bytes that are read in a row.
pub open spec fn read_all(start: PacketView, count: nat, width: nat, signed: bool) -> Seq<int>
    decreases count,
{
    if count == 0 {
        Seq::empty()
    } else {
        seq![field_value(start.upcoming(width), signed)] + read_all(
            start.skipped(width),
            (count - 1) as nat,
            width,
            signed,
        )
    }
}

/// Writing keeps every byte outside what it writes, and grows the storage as far as needed.
///
/// After `data` was written at the cursor, the buffer is well formed, the
/// bytes before the cursor and the bytes behind `data` are what they were,
/// `data` stands where the cursor was, every byte that growth added and
/// `data` does not cover is zero, and the storage is at least as large as
/// before and as what the write needed.
pub proof fn law_put_keeps_the_rest(before: PacketView, data: Seq<u8>)
    requires
        before.wf(),
    ensures
        ({
            let after = before.put(data);
            let end = before.pos + data.len();
            &&& after.wf()
            &&& after.pos == end
            &&& after.len >= before.len
            &&& after.storage.len() >= before.storage.len()
            &&& after.storage.len() >= end
            &&& after.storage.len() == grown_capacity(before.storage.len(), end)
            &&& after.storage.subrange(before.pos as int, end as int) == data
            &&& forall|i: int| 0 <= i < before.pos ==> after.storage[i] == before.storage[i]
            &&& forall|i: int|
                end <= i < before.storage.len() ==> after.storage[i] == before.storage[i]
            &&& forall|i: int|
                end <= i < after.storage.len() && before.storage.len() <= i ==> after.storage[i]
                    == 0
        }),
{
}

/// Growth keeps every byte and adds zeros, and the capacity afterwards is at least what was asked for.
pub proof fn law_growth_keeps_bytes(before: PacketView, needed: nat)
    requires
        before.wf(),
    ensures
        ({
            let after = before.grown(needed);
            &&& after.wf()
            &&& after.pos == before.pos
            &&& after.len == before.len
            &&& after.storage.len() >= needed
            &&& after.storage.len() >= before.storage.len()
            &&& after.storage.subrange(0, before.storage.len() as int) == before.storage
            &&& forall|i: int| before.storage.len() <= i < after.storage.len() ==> after.storage[i] == 0
        }),
{
    let after = before.grown(needed);
}

/// A field that is written is the field that is read where it was written.
///
/// For a value of the field's range: after the write the cursor can go
/// back to where it was, the field can be read there, it has the value
/// written, and the read leaves the cursor where the write left it.
pub proof fn law_field_round_trip(before: PacketView, value: int, width: nat, signed: bool)
    requires
        before.wf(),
        width > 0,
        fits_field(value, width, signed),
    ensures
        ({
            let written = before.put(field_bytes(value, width, signed));
            let rewound = written.moved_to(before.pos);
            &&& rewound.wf()
            &&& rewound.can_take(width)
            &&& field_value(rewound.upcoming(width), signed) == value
            &&& rewound.skipped(width) == written
        }),
{
    let data = field_bytes(value, width, signed);
    law_put_keeps_the_rest(before, data);
    if signed {
        lemma_be_bytes_len(raw_of(value, width), width);
        lemma_be_value_of_bytes(raw_of(value, width), width);
    } else {
        lemma_be_bytes_len(value as nat, width);
        lemma_be_value_of_bytes(value as nat, width);
    }
}

/// Writing fields one after another keeps what stood before the first of them.
proof fn lemma_written_all_keeps(start: PacketView, values: Seq<int>, width: nat, signed: bool)
    requires
        start.wf(),
    ensures
        ({
            let end = written_all(start, values, width, signed);
            &&& end.wf()
            &&& end.pos >= start.pos
            &&& end.storage.len() >= start.storage.len()
            &&& forall|i: int| 0 <= i < start.pos ==> end.storage[i] == start.storage[i]
        }),
    decreases values.len(),
{
    if values.len() > 0 {
        let next = start.put(field_bytes(values[0], width, signed));
        lemma_written_all_keeps(next, values.drop_first(), width, signed);
    }
}

/// Fields of one width that are written in a row are read back in a row, each with its value.
///
/// For values of the field's range: after they were written in order, the
/// cursor can go back to where it was, as many fields can be read as were
/// written, and their values, in order, are the values written.
pub proof fn law_fixed_width_round_trip(start: PacketView, values: Seq<int>, width: nat, signed: bool)
    requires
        start.wf(),
        width > 0,
        forall|i: int| 0 <= i < values.len() ==> fits_field(values[i], width, signed),
    ensures
        ({
            let rewound = written_all(start, values, width, signed).moved_to(start.pos);
            &&& rewound.wf()
            &&& can_read_all(rewound, values.len(), width)
            &&& read_all(rewound, values.len(), width, signed) == values
        }),
    decreases values.len(),
{
    let end = written_all(start, values, width, signed);
    if values.len() > 0 {
        let data = field_bytes(values[0], width, signed);
        let next = start.put(data);
        let rest = values.drop_first();
        law_field_round_trip(start, values[0], width, signed);
        lemma_written_all_keeps(next, rest, width, signed);
        law_fixed_width_round_trip(next, rest, width, signed);
        let rewound = end.moved_to(start.pos);
        assert(rewound.upcoming(width) =~= next.moved_to(start.pos).upcoming(width));
        assert(read_all(rewound, values.len(), width, signed) =~= values);
    }
}

/// A field of bits that is written is the field that is read where it was written.
///
/// For a field of 1 to 32 bits at any bit of the stream and a value below
/// 2 to the power of its width: what the bits spell after the write is the
/// value.
pub proof fn law_bit_round_trip(after: Seq<u8>, before: Seq<u8>, start: int, count: nat, value: u64)
    requires
        1 <= count <= 32,
        value < pow2(count),
        holds_field(after, before, start, count, value),
    ensures
        bits_value(after, start, count) == value,
{
    vstd::bits::lemma_u64_pow2_no_overflow(count);
    vstd::bits::lemma_u64_shl_is_mul(1, count as u64);
    lemma_low_mask_keeps(value, count as u64);
}

/// A field of bits that is written leaves every other field as it was.
///
/// What the bits of any range spell that lies within the stream and apart
/// from the field written is what they spelled before.
pub proof fn law_bit_fields_apart(
    after: Seq<u8>,
    before: Seq<u8>,
    start: int,
    count: nat,
    value: u64,
    other_start: int,
    other_count: nat,
)
    requires
        holds_field(after, before, start, count, value),
        0 <= other_start,
        other_start + other_count <= 8 * before.len(),
        other_start + other_count <= start || start + count <= other_start,
    ensures
        bits_value(after, other_start, other_count) == bits_value(before, other_start, other_count),
{
    lemma_append_same_bits(0, after, before, other_start, other_count);
}

/// What the bits of a part of the bytes spell is what those bits spell in the whole.
///
/// A field that lies in the bytes from index `from` up to index `to` is,
/// counted from the start of all bytes, 8 times `from` bits further on.
pub proof fn law_bits_of_part(bytes: Seq<u8>, from: int, to: int, start: int, count: nat)
    requires
        0 <= from <= to <= bytes.len(),
        0 <= start,
        start + count <= 8 * (to - from),
    ensures
        bits_value(bytes.subrange(from, to), start, count) == bits_value(
            bytes,
            8 * from + start,
            count,
        ),
{
    lemma_append_in_part(0, bytes, from, to, start, count);
}

/// Each of the three masks of a byte undoes itself.
pub proof fn law_masks_undo_themselves(byte: u8)
    ensures
        shifted(shifted(byte)) == byte,
        flipped(flipped(byte)) == byte,
        mirrored(mirrored(byte)) == byte,
{
}

/// The two bytes of a number of 16 bits give the number back.
pub proof fn law_pair_round_trip(value: u16)
    ensures
        pair_value(high_byte(value as nat), low_byte(value as nat)) == value,
        pair_value(high_byte(value as nat), shifted(shifted(low_byte(value as nat)))) == value,
{
}

/// A short smart integer that is written is the one that is read where it was written.
///
/// For a value up to `SMART16_MAX`: the form is one byte up to
/// `SMART16_COMPACT_MAX` and two bytes above, the leading byte tells the
/// reader which, and the value read is the value written.
pub proof fn law_smart16_round_trip(before: PacketView, value: nat)
    requires
        before.wf(),
        value <= SMART16_MAX,
    ensures
        ({
            let written = before.put(smart16_bytes(value));
            let rewound = written.moved_to(before.pos);
            &&& smart16_bytes(value).len() == if value <= SMART16_COMPACT_MAX {
                1nat
            } else {
                2nat
            }
            &&& rewound.wf()
            &&& rewound.can_take(1)
            &&& rewound.smart16_width() == smart16_bytes(value).len()
            &&& rewound.can_take(rewound.smart16_width())
            &&& rewound.next_smart16() == value
            &&& rewound.skipped(rewound.smart16_width()) == written
        }),
{
    lemma_radix_values();
    let data = smart16_bytes(value);
    law_put_keeps_the_rest(before, data);
    if value <= SMART16_COMPACT_MAX {
        lemma_be_bytes_len(value, 1);
        lemma_be_value_of_bytes(value, 1);
    } else {
        let raw = (value + 32768) as nat;
        lemma_be_bytes_len(raw, 2);
        lemma_be_value_of_bytes(raw, 2);
        lemma_leading_byte(data);
    }
}

/// A long smart integer that is written is the one that is read where it was written.
///
/// For a value between `SMART32_MIN` and `SMART32_MAX`: the form is two
/// bytes between `SMART32_COMPACT_MIN` and `SMART32_COMPACT_MAX` and four
/// bytes beyond, the leading byte tells the reader which, and the value
/// read is the value written.
pub proof fn law_smart32_round_trip(before: PacketView, value: int)
    requires
        before.wf(),
        SMART32_MIN <= value <= SMART32_MAX,
    ensures
        ({
            let written = before.put(smart32_bytes(value));
            let rewound = written.moved_to(before.pos);
            &&& smart32_bytes(value).len() == if SMART32_COMPACT_MIN <= value
                <= SMART32_COMPACT_MAX {
                2nat
            } else {
                4nat
            }
            &&& rewound.wf()
            &&& rewound.can_take(1)
            &&& rewound.smart32_width() == smart32_bytes(value).len()
            &&& rewound.can_take(rewound.smart32_width())
            &&& rewound.next_smart32() == value
            &&& rewound.skipped(rewound.smart32_width()) == written
        }),
{
    lemma_radix_values();
    let data = smart32_bytes(value);
    law_put_keeps_the_rest(before, data);
    if SMART32_COMPACT_MIN <= value <= SMART32_COMPACT_MAX {
        let raw = (value + 16384) as nat;
        lemma_be_bytes_len(raw, 2);
        lemma_be_value_of_bytes(raw, 2);
        lemma_leading_byte(data);
    } else {
        let raw = (value + 1073741824 + 0x8000_0000) as nat;
        lemma_be_bytes_len(raw, 4);
        lemma_be_value_of_bytes(raw, 4);
        lemma_leading_byte(data);
    }
}

/// Decrypting a block undoes encrypting it, and encrypting undoes decrypting, under any key.
pub proof fn law_block_cipher_inverts(block: (i32, i32), key: Seq<i32>)
    ensures
        decrypt_block_spec(encrypt_block_spec(block, key), key) == block,
        encrypt_block_spec(decrypt_block_spec(block, key), key) == block,
{
    lemma_rounds_undone(block, key, ROUNDS as nat);
}

/// Encrypting bytes block by block keeps their number and the bytes after the last whole block.
pub proof fn law_cipher_keeps_remainder(data: Seq<u8>, key: Seq<i32>, encrypting: bool)
    ensures
        cipher_bytes(data, key, encrypting).len() == data.len(),
        forall|i: int|
            8 * (data.len() / 8) <= i < data.len() ==> cipher_bytes(data, key, encrypting)[i]
                == data[i],
{
}

/// Decrypting bytes undoes encrypting them, and encrypting undoes decrypting, whatever their number.
pub proof fn law_cipher_inverts(data: Seq<u8>, key: Seq<i32>)
    ensures
        decrypt_bytes(encrypt_bytes(data, key), key) == data,
        encrypt_bytes(decrypt_bytes(data, key), key) == data,
{
    lemma_cipher_bytes_undone(data, key, true);
    lemma_cipher_bytes_undone(data, key, false);
}

/// One direction of the cipher, and then the other, gives the bytes back.
proof fn lemma_cipher_bytes_undone(data: Seq<u8>, key: Seq<i32>, encrypting: bool)
    ensures
        cipher_bytes(cipher_bytes(data, key, encrypting), key, !encrypting) == data,
{
    let once = cipher_bytes(data, key, encrypting);
    let twice = cipher_bytes(once, key, !encrypting);
    assert forall|i: int| 0 <= i < data.len() implies twice[i] == data[i] by {
        if i < 8 * (data.len() / 8) {
            let at = 8 * (i / 8);
            let piece = data.subrange(at, at + 8);
            let words = block_words(piece);
            let out = cipher_block(words, key, encrypting);
            lemma_words_of_block(out);
            assert(once.subrange(at, at + 8) =~= words_block(out));
            law_block_cipher_inverts(words, key);
            lemma_block_of_words(piece);
        }
    }
}

/// Decrypting a range of a buffer undoes encrypting it, and the reverse.
///
/// Nothing outside the range changes in either step, so the buffer is
/// again what it was.
pub proof fn law_range_cipher_inverts(
    before: PacketView,
    key: Seq<i32>,
    start: int,
    end: int,
    encrypting: bool,
)
    requires
        0 <= start <= end <= before.storage.len(),
    ensures
        before.ciphered(key, start, end, encrypting).ciphered(key, start, end, !encrypting)
            == before,
{
    let once = before.ciphered(key, start, end, encrypting);
    let range = before.storage.subrange(start, end);
    lemma_cipher_bytes_undone(range, key, encrypting);
    assert(once.storage.subrange(start, end) =~= cipher_bytes(range, key, encrypting));
    assert(once.ciphered(key, start, end, !encrypting).storage =~= before.storage);
}

} // verus!
