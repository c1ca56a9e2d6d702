//! Fixed-width integers of 1, 2, 3, 4 and 8 bytes, big-endian, unsigned and
//! two's-complement signed.

use crate::packet::bytes::Packet;
use crate::packet::bytes::PacketView;
use crate::packet::error::PacketError;
use crate::packet::wire::be_bytes;
use crate::packet::wire::be_value;
use crate::packet::wire::lemma_radix_values;
use crate::packet::wire::raw_of;
use crate::packet::wire::signed_of;
use crate::packet::wire::to_raw;
use crate::packet::wire::to_signed;
use vstd::prelude::*;

verus! {

impl PacketView {
    /// Whether `width` bytes are available.
    pub open spec fn can_take(self, width: nat) -> bool {
        self.available() >= width
    }

    /// The unsigned big-endian number that the `width` bytes at the cursor spell.
    pub open spec fn next_unsigned(self, width: nat) -> nat {
        be_value(self.upcoming(width))
    }

    /// The signed big-endian number that the `width` bytes at the cursor spell.
    pub open spec fn next_signed(self, width: nat) -> int {
        signed_of(be_value(self.upcoming(width)), width)
    }

    /// The buffer after the unsigned `value` was written in `width` bytes at the cursor.
    pub open spec fn put_unsigned(self, value: nat, width: nat) -> PacketView {
        self.put(be_bytes(value, width))
    }

    /// The buffer after the signed `value` was written in `width` bytes at the cursor.
    pub open spec fn put_signed(self, value: int, width: nat) -> PacketView {
        self.put(be_bytes(raw_of(value, width), width))
    }
}

impl Packet {
    /// Reads an unsigned byte.
    ///
    /// Fails, and leaves the cursor where it is, if no byte is available.
    pub fn g1(&mut self) -> (result: Result<u8, PacketError>)
        requires
            old(self).wf(),
        ensures
            final(self).wf(),
            !old(self)@.can_take(1) ==> result == Err::<u8, PacketError>(PacketError::UnexpectedEof)
                && final(self)@ == old(self)@,
            old(self)@.can_take(1) ==> result is Ok
                && result->Ok_0 == old(self)@.next_unsigned(1)
                && final(self)@ == old(self)@.skipped(1),
    {
        proof {
            lemma_radix_values();
        }
        match self.take_be(1) {
            Ok(raw) => Ok(raw as u8),
            Err(error) => Err(error),
        }
    }

    /// Reads a signed byte.
    ///
    /// Fails, and leaves the cursor where it is, if no byte is available.
    pub fn g1s(&mut self) -> (result: Result<i8, PacketError>)
        requires
            old(self).wf(),
        ensures
            final(self).wf(),
            !old(self)@.can_take(1) ==> result == Err::<i8, PacketError>(PacketError::UnexpectedEof)
                && final(self)@ == old(self)@,
            old(self)@.can_take(1) ==> result is Ok
                && result->Ok_0 == old(self)@.next_signed(1)
                && final(self)@ == old(self)@.skipped(1),
    {
        proof {
            lemma_radix_values();
        }
        match self.take_be(1) {
            Ok(raw) => Ok(to_signed(raw, 1) as i8),
            Err(error) => Err(error),
        }
    }

    /// Reads an unsigned number of 2 bytes.
    ///
    /// Fails, and leaves the cursor where it is, if fewer than 2 bytes are available.
    pub fn g2(&mut self) -> (result: Result<u16, PacketError>)
        requires
            old(self).wf(),
        ensures
            final(self).wf(),
            !old(self)@.can_take(2) ==> result == Err::<u16, PacketError>(
                PacketError::UnexpectedEof,
            ) && final(self)@ == old(self)@,
            old(self)@.can_take(2) ==> result is Ok
                && result->Ok_0 == old(self)@.next_unsigned(2)
                && final(self)@ == old(self)@.skipped(2),
    {
        proof {
            lemma_radix_values();
        }
        match self.take_be(2) {
            Ok(raw) => Ok(raw as u16),
            Err(error) => Err(error),
        }
    }

    /// Reads a signed number of 2 bytes.
    ///
    /// Fails, and leaves the cursor where it is, if fewer than 2 bytes are available.
    pub fn g2s(&mut self) -> (result: Result<i16, PacketError>)
        requires
            old(self).wf(),
        ensures
            final(self).wf(),
            !old(self)@.can_take(2) ==> result == Err::<i16, PacketError>(
                PacketError::UnexpectedEof,
            ) && final(self)@ == old(self)@,
            old(self)@.can_take(2) ==> result is Ok
                && result->Ok_0 == old(self)@.next_signed(2)
                && final(self)@ == old(self)@.skipped(2),
    {
        proof {
            lemma_radix_values();
        }
        match self.take_be(2) {
            Ok(raw) => Ok(to_signed(raw, 2) as i16),
            Err(error) => Err(error),
        }
    }

    /// Reads an unsigned number of 3 bytes.
    ///
    /// Fails, and leaves the cursor where it is, if fewer than 3 bytes are available.
    pub fn g3(&mut self) -> (result: Result<usize, PacketError>)
        requires
            old(self).wf(),
        ensures
            final(self).wf(),
            !old(self)@.can_take(3) ==> result == Err::<usize, PacketError>(
                PacketError::UnexpectedEof,
            ) && final(self)@ == old(self)@,
            old(self)@.can_take(3) ==> result is Ok
                && result->Ok_0 == old(self)@.next_unsigned(3)
                && final(self)@ == old(self)@.skipped(3),
    {
        proof {
            lemma_radix_values();
        }
        match self.take_be(3) {
            Ok(raw) => Ok(raw as usize),
            Err(error) => Err(error),
        }
    }

    /// Reads an unsigned number of 4 bytes.
    ///
    /// Fails, and leaves the cursor where it is, if fewer than 4 bytes are available.
    pub fn g4(&mut self) -> (result: Result<u32, PacketError>)
        requires
            old(self).wf(),
        ensures
            final(self).wf(),
            !old(self)@.can_take(4) ==> result == Err::<u32, PacketError>(
                PacketError::UnexpectedEof,
            ) && final(self)@ == old(self)@,
            old(self)@.can_take(4) ==> result is Ok
                && result->Ok_0 == old(self)@.next_unsigned(4)
                && final(self)@ == old(self)@.skipped(4),
    {
        proof {
            lemma_radix_values();
        }
        match self.take_be(4) {
            Ok(raw) => Ok(raw as u32),
            Err(error) => Err(error),
        }
    }

    /// Reads a signed number of 4 bytes.
    ///
    /// Fails, and leaves the cursor where it is, if fewer than 4 bytes are available.
    pub fn g4s(&mut self) -> (result: Result<i32, PacketError>)
        requires
            old(self).wf(),
        ensures
            final(self).wf(),
            !old(self)@.can_take(4) ==> result == Err::<i32, PacketError>(
                PacketError::UnexpectedEof,
            ) && final(self)@ == old(self)@,
            old(self)@.can_take(4) ==> result is Ok
                && result->Ok_0 == old(self)@.next_signed(4)
                && final(self)@ == old(self)@.skipped(4),
    {
        proof {
            lemma_radix_values();
        }
        match self.take_be(4) {
            Ok(raw) => Ok(to_signed(raw, 4) as i32),
            Err(error) => Err(error),
        }
    }

    /// Reads an unsigned number of 8 bytes.
    ///
    /// Fails, and leaves the cursor where it is, if fewer than 8 bytes are available.
    pub fn g8(&mut self) -> (result: Result<u64, PacketError>)
        requires
            old(self).wf(),
        ensures
            final(self).wf(),
            !old(self)@.can_take(8) ==> result == Err::<u64, PacketError>(
                PacketError::UnexpectedEof,
            ) && final(self)@ == old(self)@,
            old(self)@.can_take(8) ==> result is Ok
                && result->Ok_0 == old(self)@.next_unsigned(8)
                && final(self)@ == old(self)@.skipped(8),
    {
        self.take_be(8)
    }

    /// Reads a signed number of 8 bytes.
    ///
    /// Fails, and leaves the cursor where it is, if fewer than 8 bytes are available.
    pub fn g8s(&mut self) -> (result: Result<i64, PacketError>)
        requires
            old(self).wf(),
        ensures
            final(self).wf(),
            !old(self)@.can_take(8) ==> result == Err::<i64, PacketError>(
                PacketError::UnexpectedEof,
            ) && final(self)@ == old(self)@,
            old(self)@.can_take(8) ==> result is Ok
                && result->Ok_0 == old(self)@.next_signed(8)
                && final(self)@ == old(self)@.skipped(8),
    {
        match self.take_be(8) {
            Ok(raw) => Ok(to_signed(raw, 8)),
            Err(error) => Err(error),
        }
    }

    /// Writes an unsigned byte.
    pub fn p1(&mut self, value: u8)
        requires
            old(self).wf(),
            old(self)@.pos + 1 <= usize::MAX,
        ensures
            final(self).wf(),
            final(self)@ == old(self)@.put_unsigned(value as nat, 1),
            final(self)@.pos == old(self)@.pos + 1,
    {
        self.put_be(value as u64, 1);
    }

    /// Writes a signed byte.
    pub fn p1s(&mut self, value: i8)
        requires
            old(self).wf(),
            old(self)@.pos + 1 <= usize::MAX,
        ensures
            final(self).wf(),
            final(self)@ == old(self)@.put_signed(value as int, 1),
            final(self)@.pos == old(self)@.pos + 1,
    {
        proof {
            lemma_radix_values();
        }
        self.put_be(to_raw(value as i64, 1), 1);
    }

    /// Writes an unsigned number of 2 bytes.
    pub fn p2(&mut self, value: u16)
        requires
            old(self).wf(),
            old(self)@.pos + 2 <= usize::MAX,
        ensures
            final(self).wf(),
            final(self)@ == old(self)@.put_unsigned(value as nat, 2),
            final(self)@.pos == old(self)@.pos + 2,
    {
        self.put_be(value as u64, 2);
    }

    /// Writes a signed number of 2 bytes.
    pub fn p2s(&mut self, value: i16)
        requires
            old(self).wf(),
            old(self)@.pos + 2 <= usize::MAX,
        ensures
            final(self).wf(),
            final(self)@ == old(self)@.put_signed(value as int, 2),
            final(self)@.pos == old(self)@.pos + 2,
    {
        proof {
            lemma_radix_values();
        }
        self.put_be(to_raw(value as i64, 2), 2);
    }

    /// Writes the 3 low-order bytes of `value`.
    pub fn p3(&mut self, value: u32)
        requires
            old(self).wf(),
            old(self)@.pos + 3 <= usize::MAX,
        ensures
            final(self).wf(),
            final(self)@ == old(self)@.put_unsigned(value as nat, 3),
            final(self)@.pos == old(self)@.pos + 3,
    {
        self.put_be(value as u64, 3);
    }

    /// Writes an unsigned number of 4 bytes.
    pub fn p4(&mut self, value: u32)
        requires
            old(self).wf(),
            old(self)@.pos + 4 <= usize::MAX,
        ensures
            final(self).wf(),
            final(self)@ == old(self)@.put_unsigned(value as nat, 4),
            final(self)@.pos == old(self)@.pos + 4,
    {
        self.put_be(value as u64, 4);
    }

    /// Writes a signed number of 4 bytes.
    pub fn p4s(&mut self, value: i32)
        requires
            old(self).wf(),
            old(self)@.pos + 4 <= usize::MAX,
        ensures
            final(self).wf(),
            final(self)@ == old(self)@.put_signed(value as int, 4),
            final(self)@.pos == old(self)@.pos + 4,
    {
        proof {
            lemma_radix_values();
        }
        self.put_be(to_raw(value as i64, 4), 4);
    }

    /// Writes an unsigned number of 8 bytes.
    pub fn p8(&mut self, value: u64)
        requires
            old(self).wf(),
            old(self)@.pos + 8 <= usize::MAX,
        ensures
            final(self).wf(),
            final(self)@ == old(self)@.put_unsigned(value as nat, 8),
            final(self)@.pos == old(self)@.pos + 8,
    {
        self.put_be(value, 8);
    }

    /// Writes a signed number of 8 bytes.
    pub fn p8s(&mut self, value: i64)
        requires
            old(self).wf(),
            old(self)@.pos + 8 <= usize::MAX,
        ensures
            final(self).wf(),
            final(self)@ == old(self)@.put_signed(value as int, 8),
            final(self)@.pos == old(self)@.pos + 8,
    {
        proof {
            lemma_radix_values();
        }
        self.put_be(to_raw(value, 8), 8);
    }
}

} // verus!
