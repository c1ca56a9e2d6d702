//! Bit-level access: a reader over bytes and a writer over a packet.

use crate::packet::bitmodel::bits_value;
use crate::packet::bitmodel::holds_field;
use crate::packet::bitmodel::read_field;
use crate::packet::bitmodel::write_field;
use crate::packet::bitmodel::BitCursor;
use crate::packet::bytes::Packet;
use crate::packet::bytes::PacketView;
use crate::packet::error::PacketError;
use vstd::prelude::*;

verus! {

/// Reads fields of 1 to 32 bits from a slice of bytes.
///
/// The slice is the data: a read that would go past its last bit fails.
#[derive(Debug)]
pub struct BitReader<'a> {
    buffer: &'a [u8],
    cursor: BitCursor,
}

impl<'a> BitReader<'a> {
    /// The bytes that are read.
    pub closed spec fn data(&self) -> Seq<u8> {
        self.buffer@
    }

    /// Where the next bit is read.
    pub closed spec fn cursor(&self) -> BitCursor {
        self.cursor
    }

    /// The index of the next bit.
    pub open spec fn position(&self) -> int {
        self.cursor().position()
    }

    /// The invariant of every reader: its cursor is well formed.
    pub open spec fn wf(&self) -> bool {
        self.cursor().wf()
    }

    /// A reader at the first bit of `buffer`.
    pub fn new(buffer: &'a [u8]) -> (reader: Self)
        ensures
            reader.wf(),
            reader.data() == buffer@,
            reader.position() == 0,
    {
        Self { buffer, cursor: BitCursor { byte_index: 0, bit_offset: 0 } }
    }

    /// A reader at the first bit of byte `byte_pos` of `buffer`.
    ///
    /// A position beyond the buffer is accepted; nothing can be read there.
    pub fn new_at_position(buffer: &'a [u8], byte_pos: usize) -> (reader: Self)
        ensures
            reader.wf(),
            reader.data() == buffer@,
            reader.position() == 8 * byte_pos,
    {
        Self { buffer, cursor: BitCursor { byte_index: byte_pos, bit_offset: 0 } }
    }

    /// Reads the next `bit_count` bits as an unsigned number, first bit most significant.
    ///
    /// Fails, and leaves the cursor where it is, if `bit_count` is not
    /// between 1 and 32 or if fewer bits are left.
    pub fn read_bits(&mut self, bit_count: usize) -> (result: Result<usize, PacketError>)
        requires
            old(self).wf(),
        ensures
            final(self).wf(),
            final(self).data() == old(self).data(),
            !(1 <= bit_count <= 32) ==> result == Err::<usize, PacketError>(
                PacketError::InvalidArgument,
            ) && final(self).cursor() == old(self).cursor(),
            1 <= bit_count <= 32 && old(self).position() + bit_count > 8 * old(self).data().len()
                ==> result == Err::<usize, PacketError>(PacketError::UnexpectedEof)
                    && final(self).cursor() == old(self).cursor(),
            1 <= bit_count <= 32 && old(self).position() + bit_count <= 8 * old(self).data().len()
                ==> result is Ok && result->Ok_0 == bits_value(
                old(self).data(),
                old(self).position(),
                bit_count as nat,
            ) && final(self).position() == old(self).position() + bit_count,
    {
        if bit_count == 0 || bit_count > 32 {
            return Err(PacketError::InvalidArgument);
        }
        if !self.cursor.has_room(self.buffer.len(), bit_count) {
            return Err(PacketError::UnexpectedEof);
        }
        let (value, next) = read_field(self.buffer, self.cursor, bit_count);
        self.cursor = next;
        Ok(value as usize)
    }

    /// The index of the next bit, where it fits in `usize`.
    pub fn get_bit_position(&self) -> (position: usize)
        requires
            self.wf(),
            self.position() <= usize::MAX,
        ensures
            position == self.position(),
    {
        self.cursor.bit_position()
    }

    /// Whether at least `bit_count` bits are left.
    pub fn has_bits_available(&self, bit_count: usize) -> (enough: bool)
        requires
            self.wf(),
        ensures
            enough == (self.position() + bit_count <= 8 * self.data().len()),
    {
        self.cursor.has_room(self.buffer.len(), bit_count)
    }

    /// How many bits of the current byte are already read: 0 to 7.
    pub fn get_bits_used(&self) -> (used: usize)
        requires
            self.wf(),
        ensures
            used == self.position() % 8,
            used == self.cursor().bit_offset,
    {
        self.cursor.bit_offset
    }

    /// The bytes that are read.
    pub fn get_buffer(&self) -> (buffer: &[u8])
        ensures
            buffer@ == self.data(),
    {
        self.buffer
    }

    /// Moves `bit_count` bits forward.
    ///
    /// Fails, and leaves the cursor where it is, if fewer bits are left.
    pub fn skip_bits(&mut self, bit_count: usize) -> (result: Result<(), PacketError>)
        requires
            old(self).wf(),
        ensures
            final(self).wf(),
            final(self).data() == old(self).data(),
            old(self).position() + bit_count > 8 * old(self).data().len() ==> result == Err::<
                (),
                PacketError,
            >(PacketError::UnexpectedEof) && final(self).cursor() == old(self).cursor(),
            old(self).position() + bit_count <= 8 * old(self).data().len() ==> result == Ok::<
                (),
                PacketError,
            >(()) && final(self).position() == old(self).position() + bit_count,
    {
        if !self.cursor.has_room(self.buffer.len(), bit_count) {
            return Err(PacketError::UnexpectedEof);
        }
        let within: usize = self.cursor.bit_offset + bit_count % 8;
        self.cursor = BitCursor {
            byte_index: self.cursor.byte_index + bit_count / 8 + within / 8,
            bit_offset: within % 8,
        };
        Ok(())
    }
}

/// Writes fields of 1 to 32 bits into a packet, from the packet's cursor on.
///
/// The writer borrows the packet for as long as bits are written, so the
/// packet cannot be reached byte by byte in the meantime. The whole bytes
/// that it fills move the packet's cursor; a byte that is filled in part
/// counts as written. [`BitWriter::finish`] ends the session at the next
/// byte boundary.
#[derive(Debug)]
pub struct BitWriter<'a> {
    packet: &'a mut Packet,
    bit_pos: usize,
}

impl<'a> BitWriter<'a> {
    /// The packet that is written to.
    pub closed spec fn target(&self) -> &'a mut Packet {
        self.packet
    }

    /// The packet as it is now.
    pub open spec fn packet(&self) -> PacketView {
        self.target()@
    }

    /// How many bits of the byte at the packet's cursor are already written: 0 to 7.
    pub closed spec fn bits_used(&self) -> nat {
        self.bit_pos as nat
    }

    /// The index, among the bits of the packet's storage, of the next bit to write.
    pub open spec fn position(&self) -> int {
        (8 * self.packet().pos + self.bits_used()) as int
    }

    /// The invariant of every writer.
    ///
    /// The packet is well formed, and a byte that holds written bits lies
    /// within its written extent.
    pub open spec fn wf(&self) -> bool {
        &&& self.packet().wf()
        &&& self.bits_used() < 8
        &&& self.bits_used() > 0 ==> self.packet().pos < self.packet().len
    }

    /// A writer at the packet's cursor.
    pub fn new(buffer: &'a mut Packet) -> (writer: Self)
        requires
            old(buffer).wf(),
        ensures
            writer.wf(),
            writer.packet() == old(buffer)@,
            writer.bits_used() == 0,
            *final(writer.target()) == *final(buffer),
    {
        Self { packet: buffer, bit_pos: 0 }
    }

    /// A writer at byte `byte_pos` of the packet, which must not lie beyond the written extent.
    pub fn new_at_position(buffer: &'a mut Packet, byte_pos: usize) -> (writer: Self)
        requires
            old(buffer).wf(),
            byte_pos <= old(buffer)@.len,
        ensures
            writer.wf(),
            writer.packet() == old(buffer)@.moved_to(byte_pos as nat),
            writer.bits_used() == 0,
            *final(writer.target()) == *final(buffer),
    {
        buffer.pos = byte_pos;
        Self { packet: buffer, bit_pos: 0 }
    }

    /// How many bits of the byte at the packet's cursor are already written: 0 to 7.
    pub fn get_bits_used(&self) -> (used: usize)
        ensures
            used == self.bits_used(),
    {
        self.bit_pos
    }

    /// Writes the `bit_count` low bits of `value`, most significant of them first.
    ///
    /// Fails, and changes nothing, if `bit_count` is not between 1 and 32.
    /// Otherwise the packet grows where the field does not fit, the field is
    /// stored, no other bit changes, and the written extent covers every
    /// byte that holds a bit of the field.
    pub fn write_bits(&mut self, value: u32, bit_count: usize) -> (result: Result<(), PacketError>)
        requires
            old(self).wf(),
            old(self).packet().pos + 5 <= usize::MAX,
        ensures
            final(self).wf(),
            *final(final(self).target()) == *final(old(self).target()),
            !(1 <= bit_count <= 32) ==> result == Err::<(), PacketError>(
                PacketError::InvalidArgument,
            )
                && final(self).packet() == old(self).packet()
                && final(self).bits_used() == old(self).bits_used(),
            1 <= bit_count <= 32 ==> result == Ok::<(), PacketError>(()) && ({
                let before = old(self).packet();
                let after = final(self).packet();
                let end = old(self).position() + bit_count;
                let room = before.grown(((end + 7) / 8) as nat);
                &&& holds_field(
                    after.storage,
                    room.storage,
                    old(self).position(),
                    bit_count as nat,
                    value as u64,
                )
                &&& final(self).position() == end
                &&& after.len == if (end + 7) / 8 > before.len {
                    ((end + 7) / 8) as nat
                } else {
                    before.len
                }
            }),
    {
        if bit_count == 0 || bit_count > 32 {
            return Err(PacketError::InvalidArgument);
        }
        let span: usize = (self.bit_pos + bit_count + 7) / 8;
        self.packet.ensure_capacity(span);
        let cursor = BitCursor { byte_index: self.packet.pos, bit_offset: self.bit_pos };
        let next = write_field(&mut self.packet.bytes, cursor, value as u64, bit_count);
        let touched: usize = self.packet.pos + span;
        if touched > self.packet.len {
            self.packet.len = touched;
        }
        self.packet.pos = next.byte_index;
        self.bit_pos = next.bit_offset;
        Ok(())
    }

    /// Moves to the next byte boundary, if the cursor is not at one.
    pub fn align(&mut self)
        requires
            old(self).wf(),
        ensures
            final(self).wf(),
            *final(final(self).target()) == *final(old(self).target()),
            final(self).bits_used() == 0,
            final(self).packet() == old(self).packet().moved_to(
                ((old(self).position() + 7) / 8) as nat,
            ),
    {
        if self.bit_pos > 0 {
            self.packet.pos = self.packet.pos + 1;
            self.bit_pos = 0;
        }
    }

    /// Ends the session: aligns to the next byte boundary and gives the packet back.
    pub fn finish(self)
        requires
            self.wf(),
        ensures
            final(self.target())@ == self.packet().moved_to(((self.position() + 7) / 8) as nat),
            final(self.target()).wf(),
    {
        if self.bit_pos > 0 {
            self.packet.pos = self.packet.pos + 1;
        }
    }
}

} // verus!
