//! The masked encodings of one and two bytes that older peers expect.
//!
//! Each of them alters a byte by one of three reversible rules. They hide
//! values from a casual look at the bytes and protect nothing.

use crate::packet::bytes::Packet;
use crate::packet::error::PacketError;
use vstd::prelude::*;

verus! {

/// The byte plus 128, modulo 256. Doing it twice gives the byte back.
pub open spec fn shifted(byte: u8) -> u8 {
    ((byte + 128) % 256) as u8
}

/// The bitwise complement of the byte. Doing it twice gives the byte back.
pub open spec fn flipped(byte: u8) -> u8 {
    (255 - byte) as u8
}

/// 128 minus the byte, modulo 256. Doing it twice gives the byte back.
pub open spec fn mirrored(byte: u8) -> u8 {
    ((384 - byte) % 256) as u8
}

/// The low-order byte of a number.
pub open spec fn low_byte(value: nat) -> u8 {
    (value % 256) as u8
}

/// The second byte of a number, counted from its low end.
pub open spec fn high_byte(value: nat) -> u8 {
    ((value / 256) % 256) as u8
}

/// The number whose low-order byte is `low` and whose next byte is `high`.
pub open spec fn pair_value(high: u8, low: u8) -> nat {
    (256 * high + low) as nat
}

/// The byte plus 128, modulo 256.
pub fn shift_byte(byte: u8) -> (out: u8)
    ensures
        out == shifted(byte),
        shifted(out) == byte,
{
    if byte < 128 {
        byte + 128
    } else {
        byte - 128
    }
}

/// The bitwise complement of the byte.
pub fn flip_byte(byte: u8) -> (out: u8)
    ensures
        out == flipped(byte),
        flipped(out) == byte,
{
    255 - byte
}

/// 128 minus the byte, modulo 256.
pub fn mirror_byte(byte: u8) -> (out: u8)
    ensures
        out == mirrored(byte),
        mirrored(out) == byte,
{
    if byte <= 128 {
        128 - byte
    } else {
        255 - (byte - 129)
    }
}

impl Packet {
    /// Reads the two bytes at the cursor, as they stand, and moves the cursor past them.
    fn take_pair(&mut self) -> (result: Result<(u8, u8), PacketError>)
        requires
            old(self).wf(),
        ensures
            final(self).wf(),
            !old(self)@.can_take(2) ==> result == Err::<(u8, u8), PacketError>(
                PacketError::UnexpectedEof,
            ) && final(self)@ == old(self)@,
            old(self)@.can_take(2) ==> result == Ok::<(u8, u8), PacketError>(
                (old(self)@.ahead(0), old(self)@.ahead(1)),
            ) && final(self)@ == old(self)@.skipped(2),
    {
        if self.len - self.pos < 2 {
            return Err(PacketError::UnexpectedEof);
        }
        let first: u8 = self.bytes[self.pos];
        let second: u8 = self.bytes[self.pos + 1];
        self.pos = self.pos + 2;
        Ok((first, second))
    }

    /// Writes `first` and then `second` at the cursor.
    fn put_pair(&mut self, first: u8, second: u8)
        requires
            old(self).wf(),
            old(self)@.pos + 2 <= usize::MAX,
        ensures
            final(self).wf(),
            final(self)@ == old(self)@.put(seq![first, second]),
    {
        let pair: [u8; 2] = [first, second];
        self.write_at_cursor(pair.as_slice());
    }

    /// Reads a byte that was written with 128 added.
    ///
    /// Fails, and leaves the cursor where it is, if no byte is available.
    pub fn g1_alt1(&mut self) -> (result: Result<u8, PacketError>)
        requires
            old(self).wf(),
        ensures
            final(self).wf(),
            !old(self)@.can_take(1) ==> result == Err::<u8, PacketError>(PacketError::UnexpectedEof)
                && final(self)@ == old(self)@,
            old(self)@.can_take(1) ==> result == Ok::<u8, PacketError>(
                shifted(old(self)@.ahead(0)),
            ) && final(self)@ == old(self)@.skipped(1),
    {
        match self.peek() {
            Some(byte) => {
                self.pos = self.pos + 1;
                Ok(shift_byte(byte))
            },
            None => Err(PacketError::UnexpectedEof),
        }
    }

    /// Reads a byte that was written complemented.
    ///
    /// Fails, and leaves the cursor where it is, if no byte is available.
    pub fn g1_alt2(&mut self) -> (result: Result<u8, PacketError>)
        requires
            old(self).wf(),
        ensures
            final(self).wf(),
            !old(self)@.can_take(1) ==> result == Err::<u8, PacketError>(PacketError::UnexpectedEof)
                && final(self)@ == old(self)@,
            old(self)@.can_take(1) ==> result == Ok::<u8, PacketError>(
                flipped(old(self)@.ahead(0)),
            ) && final(self)@ == old(self)@.skipped(1),
    {
        match self.peek() {
            Some(byte) => {
                self.pos = self.pos + 1;
                Ok(flip_byte(byte))
            },
            None => Err(PacketError::UnexpectedEof),
        }
    }

    /// Reads a byte that was written subtracted from 128.
    ///
    /// Fails, and leaves the cursor where it is, if no byte is available.
    pub fn g1_alt3(&mut self) -> (result: Result<u8, PacketError>)
        requires
            old(self).wf(),
        ensures
            final(self).wf(),
            !old(self)@.can_take(1) ==> result == Err::<u8, PacketError>(PacketError::UnexpectedEof)
                && final(self)@ == old(self)@,
            old(self)@.can_take(1) ==> result == Ok::<u8, PacketError>(
                mirrored(old(self)@.ahead(0)),
            ) && final(self)@ == old(self)@.skipped(1),
    {
        match self.peek() {
            Some(byte) => {
                self.pos = self.pos + 1;
                Ok(mirror_byte(byte))
            },
            None => Err(PacketError::UnexpectedEof),
        }
    }

    /// Writes `value` with 128 added, modulo 256.
    pub fn p1_alt1(&mut self, value: u8)
        requires
            old(self).wf(),
            old(self)@.pos + 1 <= usize::MAX,
        ensures
            final(self).wf(),
            final(self)@ == old(self)@.put(seq![shifted(value)]),
    {
        let data: [u8; 1] = [shift_byte(value)];
        assert(data@ =~= seq![shifted(value)]);
        self.write_at_cursor(data.as_slice());
    }

    /// Writes the complement of `value`.
    pub fn p1_alt2(&mut self, value: u8)
        requires
            old(self).wf(),
            old(self)@.pos + 1 <= usize::MAX,
        ensures
            final(self).wf(),
            final(self)@ == old(self)@.put(seq![flipped(value)]),
    {
        let data: [u8; 1] = [flip_byte(value)];
        assert(data@ =~= seq![flipped(value)]);
        self.write_at_cursor(data.as_slice());
    }

    /// Writes the low-order byte of `value` subtracted from 128, modulo 256.
    pub fn p1_alt3(&mut self, value: usize)
        requires
            old(self).wf(),
            old(self)@.pos + 1 <= usize::MAX,
        ensures
            final(self).wf(),
            final(self)@ == old(self)@.put(seq![mirrored(low_byte(value as nat))]),
    {
        let data: [u8; 1] = [mirror_byte((value % 256) as u8)];
        assert(data@ =~= seq![mirrored(low_byte(value as nat))]);
        self.write_at_cursor(data.as_slice());
    }

    /// Reads a number of 2 bytes that was written low byte first.
    ///
    /// Fails, and leaves the cursor where it is, if fewer than 2 bytes are available.
    pub fn g2_alt1(&mut self) -> (result: Result<u16, PacketError>)
        requires
            old(self).wf(),
        ensures
            final(self).wf(),
            !old(self)@.can_take(2) ==> result == Err::<u16, PacketError>(
                PacketError::UnexpectedEof,
            ) && final(self)@ == old(self)@,
            old(self)@.can_take(2) ==> result is Ok && result->Ok_0 == pair_value(
                old(self)@.ahead(1),
                old(self)@.ahead(0),
            ) && final(self)@ == old(self)@.skipped(2),
    {
        match self.take_pair() {
            Ok((first, second)) => Ok(second as u16 * 256 + first as u16),
            Err(error) => Err(error),
        }
    }

    /// Reads a number of 2 bytes that was written high byte first, 128 added to its low byte.
    ///
    /// Fails, and leaves the cursor where it is, if fewer than 2 bytes are available.
    pub fn g2_alt2(&mut self) -> (result: Result<u16, PacketError>)
        requires
            old(self).wf(),
        ensures
            final(self).wf(),
            !old(self)@.can_take(2) ==> result == Err::<u16, PacketError>(
                PacketError::UnexpectedEof,
            ) && final(self)@ == old(self)@,
            old(self)@.can_take(2) ==> result is Ok && result->Ok_0 == pair_value(
                old(self)@.ahead(0),
                shifted(old(self)@.ahead(1)),
            ) && final(self)@ == old(self)@.skipped(2),
    {
        match self.take_pair() {
            Ok((first, second)) => Ok(first as u16 * 256 + shift_byte(second) as u16),
            Err(error) => Err(error),
        }
    }

    /// Reads a number of 2 bytes that was written low byte first, 128 added to its low byte.
    ///
    /// Fails, and leaves the cursor where it is, if fewer than 2 bytes are available.
    pub fn g2_alt3(&mut self) -> (result: Result<u16, PacketError>)
        requires
            old(self).wf(),
        ensures
            final(self).wf(),
            !old(self)@.can_take(2) ==> result == Err::<u16, PacketError>(
                PacketError::UnexpectedEof,
            ) && final(self)@ == old(self)@,
            old(self)@.can_take(2) ==> result is Ok && result->Ok_0 == pair_value(
                old(self)@.ahead(1),
                shifted(old(self)@.ahead(0)),
            ) && final(self)@ == old(self)@.skipped(2),
    {
        match self.take_pair() {
            Ok((first, second)) => Ok(second as u16 * 256 + shift_byte(first) as u16),
            Err(error) => Err(error),
        }
    }

    /// Writes `value` in 2 bytes, low byte first.
    pub fn p2_alt1(&mut self, value: u16)
        requires
            old(self).wf(),
            old(self)@.pos + 2 <= usize::MAX,
        ensures
            final(self).wf(),
            final(self)@ == old(self)@.put(seq![low_byte(value as nat), high_byte(value as nat)]),
    {
        self.put_pair((value % 256) as u8, (value / 256) as u8);
    }

    /// Writes `value` in 2 bytes, high byte first, with 128 added to its low byte.
    pub fn p2_alt2(&mut self, value: u16)
        requires
            old(self).wf(),
            old(self)@.pos + 2 <= usize::MAX,
        ensures
            final(self).wf(),
            final(self)@ == old(self)@.put(
                seq![high_byte(value as nat), shifted(low_byte(value as nat))],
            ),
    {
        self.put_pair((value / 256) as u8, shift_byte((value % 256) as u8));
    }

    /// Writes `value` in 2 bytes, low byte first, with 128 added to its low byte.
    pub fn p2_alt3(&mut self, value: u16)
        requires
            old(self).wf(),
            old(self)@.pos + 2 <= usize::MAX,
        ensures
            final(self).wf(),
            final(self)@ == old(self)@.put(
                seq![shifted(low_byte(value as nat)), high_byte(value as nat)],
            ),
    {
        self.put_pair(shift_byte((value % 256) as u8), (value / 256) as u8);
    }
}

} // verus!
