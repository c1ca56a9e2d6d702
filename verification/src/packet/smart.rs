//! Integers of variable width: a compact form for small values and an
//! extended form, told apart by the leading bit.

use crate::packet::bytes::Packet;
use crate::packet::bytes::PacketView;
use crate::packet::error::PacketError;
use crate::packet::wire::be_bytes;
use crate::packet::wire::be_value;
use crate::packet::wire::lemma_radix_values;
use vstd::prelude::*;

verus! {

/// The largest value that the short smart integer holds in one byte.
pub const SMART16_COMPACT_MAX: usize = 127;

/// The largest value that the short smart integer holds at all.
pub const SMART16_MAX: usize = 32767;

/// What the short smart integer adds to a value that takes two bytes: it sets the leading bit.
pub const SMART16_BIAS: usize = 32768;

/// The smallest value that the long smart integer holds in two bytes.
pub const SMART32_COMPACT_MIN: isize = -16384;

/// The largest value that the long smart integer holds in two bytes.
pub const SMART32_COMPACT_MAX: isize = 16383;

/// The smallest value that the long smart integer holds at all.
pub const SMART32_MIN: isize = -1073741824;

/// The largest value that the long smart integer holds at all.
pub const SMART32_MAX: isize = 1073741823;

/// What the long smart integer adds to a value that takes two bytes.
pub const SMART32_COMPACT_BIAS: isize = 16384;

/// What the long smart integer adds to a value that takes four bytes.
pub const SMART32_BIAS: isize = 1073741824;

/// The leading bit of a field of four bytes, which marks the extended form.
pub const SMART32_FLAG: u64 = 0x8000_0000;

/// The bytes of the short smart integer `value`, which is at most `SMART16_MAX`.
///
/// Up to `SMART16_COMPACT_MAX` the value is one byte. Above, it is two
/// bytes that spell the value plus `SMART16_BIAS`.
pub open spec fn smart16_bytes(value: nat) -> Seq<u8> {
    if value <= SMART16_COMPACT_MAX {
        be_bytes(value, 1)
    } else {
        be_bytes(value + SMART16_BIAS as nat, 2)
    }
}

/// The bytes of the long smart integer `value`, which lies between `SMART32_MIN` and `SMART32_MAX`.
///
/// Between `SMART32_COMPACT_MIN` and `SMART32_COMPACT_MAX` the value is two
/// bytes that spell the value plus `SMART32_COMPACT_BIAS`. Otherwise it is
/// four bytes that spell the value plus `SMART32_BIAS`, with the leading bit set.
pub open spec fn smart32_bytes(value: int) -> Seq<u8> {
    if SMART32_COMPACT_MIN <= value <= SMART32_COMPACT_MAX {
        be_bytes((value + SMART32_COMPACT_BIAS) as nat, 2)
    } else {
        be_bytes((value + SMART32_BIAS + SMART32_FLAG) as nat, 4)
    }
}

/// The number `value` as 32 bits: itself if it is not negative, else its two's complement.
pub open spec fn as_word(value: int) -> u32 {
    (value % 0x1_0000_0000) as u32
}

impl PacketView {
    /// How many bytes the short smart integer at the cursor takes, which its leading bit says.
    pub open spec fn smart16_width(self) -> nat {
        if self.ahead(0) <= SMART16_COMPACT_MAX {
            1
        } else {
            2
        }
    }

    /// The short smart integer that stands at the cursor.
    pub open spec fn next_smart16(self) -> nat {
        if self.smart16_width() == 1 {
            be_value(self.upcoming(1))
        } else {
            (be_value(self.upcoming(2)) - SMART16_BIAS) as nat
        }
    }

    /// How many bytes the long smart integer at the cursor takes, which its leading bit says.
    pub open spec fn smart32_width(self) -> nat {
        if self.ahead(0) < 0x80 {
            2
        } else {
            4
        }
    }

    /// The long smart integer that stands at the cursor.
    pub open spec fn next_smart32(self) -> int {
        if self.smart32_width() == 2 {
            be_value(self.upcoming(2)) - SMART32_COMPACT_BIAS
        } else {
            be_value(self.upcoming(4)) - SMART32_FLAG - SMART32_BIAS
        }
    }
}

/// The first of the bytes is the leading byte of what they spell.
pub proof fn lemma_leading_byte(bytes: Seq<u8>)
    requires
        bytes.len() == 2 || bytes.len() == 4,
    ensures
        bytes.len() == 2 ==> be_value(bytes) == 256 * bytes[0] + bytes[1],
        bytes.len() == 4 ==> be_value(bytes) == 0x100_0000 * bytes[0] + 0x1_0000 * bytes[1] + 256
            * bytes[2] + bytes[3],
{
    reveal_with_fuel(be_value, 5);
}

impl Packet {
    /// Reads a short smart integer: one byte, or two if the leading bit is set.
    ///
    /// Fails, and leaves the cursor where it is, if fewer bytes are
    /// available than the leading byte calls for.
    pub fn gsmart_u16(&mut self) -> (result: Result<usize, PacketError>)
        requires
            old(self).wf(),
        ensures
            final(self).wf(),
            !old(self)@.can_take(1) || !old(self)@.can_take(old(self)@.smart16_width()) ==> result
                == Err::<usize, PacketError>(PacketError::UnexpectedEof)
                    && final(self)@ == old(self)@,
            old(self)@.can_take(1) && old(self)@.can_take(old(self)@.smart16_width()) ==> result
                is Ok
                    && result->Ok_0 == old(self)@.next_smart16()
                    && final(self)@ == old(self)@.skipped(old(self)@.smart16_width()),
    {
        proof {
            lemma_radix_values();
        }
        match self.peek() {
            None => Err(PacketError::UnexpectedEof),
            Some(next) => {
                if next > 127 {
                    proof {
                        if old(self)@.can_take(2) {
                            lemma_leading_byte(old(self)@.upcoming(2));
                        }
                    }
                    match self.take_be(2) {
                        Ok(raw) => Ok((raw - 32768) as usize),
                        Err(error) => Err(error),
                    }
                } else {
                    match self.take_be(1) {
                        Ok(raw) => Ok(raw as usize),
                        Err(error) => Err(error),
                    }
                }
            },
        }
    }

    /// Reads a long smart integer: two bytes, or four if the leading bit is set.
    ///
    /// A negative value comes back as its two's complement in 32 bits.
    /// Fails, and leaves the cursor where it is, if fewer bytes are
    /// available than the leading byte calls for.
    pub fn gsmart_u32(&mut self) -> (result: Result<u32, PacketError>)
        requires
            old(self).wf(),
        ensures
            final(self).wf(),
            !old(self)@.can_take(1) || !old(self)@.can_take(old(self)@.smart32_width()) ==> result
                == Err::<u32, PacketError>(PacketError::UnexpectedEof)
                    && final(self)@ == old(self)@,
            old(self)@.can_take(1) && old(self)@.can_take(old(self)@.smart32_width()) ==> result
                == Ok::<u32, PacketError>(as_word(old(self)@.next_smart32())) && final(self)@
                == old(self)@.skipped(old(self)@.smart32_width()),
    {
        proof {
            lemma_radix_values();
        }
        match self.peek() {
            None => Err(PacketError::UnexpectedEof),
            Some(next) => {
                if next < 0x80 {
                    match self.take_be(2) {
                        Ok(raw) => {
                            let value: i64 = raw as i64 - 16384;
                            if value < 0 {
                                Ok((value + 0x1_0000_0000) as u32)
                            } else {
                                Ok(value as u32)
                            }
                        },
                        Err(error) => Err(error),
                    }
                } else {
                    proof {
                        if old(self)@.can_take(4) {
                        }
                    }
                    match self.take_be(4) {
                        Ok(raw) => {
                            let value: i64 = raw as i64 - 0x8000_0000 - 1073741824;
                            if value < 0 {
                                Ok((value + 0x1_0000_0000) as u32)
                            } else {
                                Ok(value as u32)
                            }
                        },
                        Err(error) => Err(error),
                    }
                }
            },
        }
    }

    /// Writes a short smart integer: one byte up to 127, two bytes above.
    pub fn psmart_u16(&mut self, value: usize)
        requires
            old(self).wf(),
            value <= SMART16_MAX,
            old(self)@.pos + 2 <= usize::MAX,
        ensures
            final(self).wf(),
            final(self)@ == old(self)@.put(smart16_bytes(value as nat)),
    {
        if value <= 127 {
            self.put_be(value as u64, 1);
        } else {
            self.put_be(value as u64 + 32768, 2);
        }
    }

    /// Writes a long smart integer: two bytes from -16384 to 16383, four bytes beyond.
    pub fn psmart_u32(&mut self, value: isize)
        requires
            old(self).wf(),
            SMART32_MIN <= value <= SMART32_MAX,
            old(self)@.pos + 4 <= usize::MAX,
        ensures
            final(self).wf(),
            final(self)@ == old(self)@.put(smart32_bytes(value as int)),
    {
        if value >= -16384 && value <= 16383 {
            self.put_be((value as i64 + 16384) as u64, 2);
        } else {
            self.put_be((value as i64 + 1073741824 + 0x8000_0000) as u64, 4);
        }
    }
}

} // verus!
