//! The self-contained bit buffer: its own storage, a write cursor and a read cursor.

use crate::packet::bitmodel::bits_value;
use crate::packet::bitmodel::holds_field;
use crate::packet::bitmodel::read_field;
use crate::packet::bitmodel::write_field;
use crate::packet::bitmodel::BitCursor;
use crate::packet::error::PacketError;
use crate::packet::wire::zeros;
use vstd::prelude::*;
use vstd::slice::slice_subrange;

verus! {

/// The size of a new bit buffer's storage, in bytes.
pub const INITIAL_BIT_CAPACITY: usize = 32;

/// The most bytes a bit buffer may hold, so that every bit index fits in `usize`.
pub const MAX_BIT_CAPACITY: usize = usize::MAX / 8;

/// A growable buffer that is written and read bit by bit.
///
/// Bits are written at the write cursor and read at the read cursor; the
/// two move independently, and a read never passes the write cursor.
#[derive(Clone, Debug)]
pub struct PacketBit {
    buffer: Vec<u8>,
    writer: BitCursor,
    reader: BitCursor,
}

/// What a [`PacketBit`] is, as mathematics.
pub struct PacketBitView {
    /// Every byte of the backing storage.
    pub storage: Seq<u8>,
    /// The number of bits written: the index of the next bit to write.
    pub written: nat,
    /// The number of bits read: the index of the next bit to read.
    pub read: nat,
}

/// The capacity in bytes of a bit buffer of `capacity` bytes after room for `needed` bytes was asked for.
///
/// A buffer that is large enough stays as it is. Otherwise it doubles, unless
/// even twice the capacity is too small or exceeds [`MAX_BIT_CAPACITY`]; then
/// it takes exactly what is needed.
pub open spec fn grown_bit_capacity(capacity: nat, needed: nat) -> nat {
    if needed <= capacity {
        capacity
    } else if needed <= 2 * capacity && 2 * capacity <= MAX_BIT_CAPACITY {
        2 * capacity
    } else {
        needed
    }
}

impl PacketBitView {
    /// The read cursor is not ahead of the write cursor, which lies within
    /// the storage, and every bit index of the storage fits in `usize`.
    pub open spec fn wf(self) -> bool {
        self.read <= self.written <= 8 * self.storage.len() <= usize::MAX
    }

    /// The number of bytes that hold written bits.
    pub open spec fn bytes_written(self) -> nat {
        ((self.written + 7) / 8) as nat
    }

    /// The storage with room for `bit_count` more bits at the write cursor, the new bytes zero.
    pub open spec fn room_for(self, bit_count: nat) -> Seq<u8> {
        let capacity = self.storage.len();
        let needed = ((self.written + bit_count + 7) / 8) as nat;
        self.storage + zeros((grown_bit_capacity(capacity, needed) - capacity) as nat)
    }
}

impl View for PacketBit {
    type V = PacketBitView;

    closed spec fn view(&self) -> PacketBitView {
        PacketBitView {
            storage: self.buffer@,
            written: self.writer.position() as nat,
            read: self.reader.position() as nat,
        }
    }
}

impl PacketBit {
    /// Both cursors are well formed.
    pub closed spec fn cursors_wf(&self) -> bool {
        self.writer.wf() && self.reader.wf()
    }

    /// The invariant of every bit buffer: see [`PacketBitView::wf`].
    pub open spec fn wf(&self) -> bool {
        self@.wf() && self.cursors_wf()
    }

    /// A buffer of [`INITIAL_BIT_CAPACITY`] zero bytes with both cursors at bit 0.
    pub fn new() -> (buffer: Self)
        ensures
            buffer.wf(),
            buffer@ == (PacketBitView {
                storage: zeros(INITIAL_BIT_CAPACITY as nat),
                written: 0,
                read: 0,
            }),
    {
        let storage = vec![0u8; INITIAL_BIT_CAPACITY];
        assert(storage@ =~= zeros(INITIAL_BIT_CAPACITY as nat));
        Self {
            buffer: storage,
            writer: BitCursor { byte_index: 0, bit_offset: 0 },
            reader: BitCursor { byte_index: 0, bit_offset: 0 },
        }
    }

    /// Makes room for `bit_count` more bits at the write cursor.
    fn reserve(&mut self, bit_count: usize)
        requires
            old(self).wf(),
            bit_count <= 32,
            old(self)@.written + 39 <= usize::MAX,
        ensures
            final(self).wf(),
            final(self)@ == (PacketBitView { storage: old(self)@.room_for(bit_count as nat), ..old(self)@ }),
            final(self).writer == old(self).writer,
            final(self).reader == old(self).reader,
            old(self)@.written + bit_count <= 8 * final(self)@.storage.len(),
    {
        let capacity: usize = self.buffer.len();
        let needed: usize = self.writer.byte_index + (self.writer.bit_offset + bit_count + 7) / 8;
        if needed > capacity {
            let target: usize = if capacity <= MAX_BIT_CAPACITY / 2 && needed <= capacity * 2 {
                capacity * 2
            } else {
                needed
            };
            self.buffer.resize(target, 0u8);
        }
        assert(self.buffer@ =~= old(self)@.room_for(bit_count as nat));
    }

    /// Writes the `count` low bits of `value` at the write cursor.
    fn put_field(&mut self, value: u64, count: usize)
        requires
            old(self).wf(),
            1 <= count <= 32,
            old(self)@.written + 39 <= usize::MAX,
        ensures
            final(self).wf(),
            holds_field(
                final(self)@.storage,
                old(self)@.room_for(count as nat),
                old(self)@.written as int,
                count as nat,
                value,
            ),
            final(self)@.written == old(self)@.written + count,
            final(self)@.read == old(self)@.read,
    {
        self.reserve(count);
        let next = write_field(&mut self.buffer, self.writer, value, count);
        self.writer = next;
    }

    /// Writes the `bit_count` low bits of `value`, most significant of them first.
    ///
    /// Fails, and changes nothing, if `bit_count` is not between 1 and 32.
    /// Otherwise the storage grows where the field does not fit, the field
    /// is stored at the write cursor, and no other bit changes.
    pub fn write_bits(&mut self, value: u32, bit_count: usize) -> (result: Result<(), PacketError>)
        requires
            old(self).wf(),
            old(self)@.written + 39 <= usize::MAX,
        ensures
            final(self).wf(),
            !(1 <= bit_count <= 32) ==> result == Err::<(), PacketError>(
                PacketError::InvalidArgument,
            ) && final(self)@ == old(self)@,
            1 <= bit_count <= 32 ==> result == Ok::<(), PacketError>(()) && holds_field(
                final(self)@.storage,
                old(self)@.room_for(bit_count as nat),
                old(self)@.written as int,
                bit_count as nat,
                value as u64,
            )
                && final(self)@.written == old(self)@.written + bit_count
                && final(self)@.read == old(self)@.read,
    {
        if bit_count == 0 || bit_count > 32 {
            return Err(PacketError::InvalidArgument);
        }
        self.put_field(value as u64, bit_count);
        Ok(())
    }

    /// Writes the `size` low bits of `value`, most significant of them first.
    ///
    /// Fails, and changes nothing, if `size` is not between 1 and 32.
    pub fn pbits(&mut self, size: usize, value: usize) -> (result: Result<(), PacketError>)
        requires
            old(self).wf(),
            old(self)@.written + 39 <= usize::MAX,
        ensures
            final(self).wf(),
            !(1 <= size <= 32) ==> result == Err::<(), PacketError>(PacketError::InvalidArgument)
                && final(self)@ == old(self)@,
            1 <= size <= 32 ==> result == Ok::<(), PacketError>(()) && holds_field(
                final(self)@.storage,
                old(self)@.room_for(size as nat),
                old(self)@.written as int,
                size as nat,
                value as u64,
            )
                && final(self)@.written == old(self)@.written + size
                && final(self)@.read == old(self)@.read,
    {
        if size == 0 || size > 32 {
            return Err(PacketError::InvalidArgument);
        }
        self.put_field(value as u64, size);
        Ok(())
    }

    /// Writes `value` as a field of `size` whole bytes, 1 to 4 of them.
    fn pbytes(&mut self, size: usize, value: usize) -> (result: Result<(), PacketError>)
        requires
            old(self).wf(),
            1 <= size <= 4,
            old(self)@.written + 39 <= usize::MAX,
        ensures
            final(self).wf(),
            result == Ok::<(), PacketError>(()),
            holds_field(
                final(self)@.storage,
                old(self)@.room_for(8 * size as nat),
                old(self)@.written as int,
                8 * size as nat,
                value as u64,
            ),
            final(self)@.written == old(self)@.written + 8 * size,
            final(self)@.read == old(self)@.read,
    {
        self.pbits(size * 8, value)
    }

    /// Writes a truth value as a field of one byte: 1 for true, 0 for false.
    pub fn pbool(&mut self, value: bool) -> (result: Result<(), PacketError>)
        requires
            old(self).wf(),
            old(self)@.written + 39 <= usize::MAX,
        ensures
            final(self).wf(),
            result == Ok::<(), PacketError>(()),
            holds_field(
                final(self)@.storage,
                old(self)@.room_for(8),
                old(self)@.written as int,
                8,
                if value {
                    1u64
                } else {
                    0u64
                },
            ),
            final(self)@.written == old(self)@.written + 8,
            final(self)@.read == old(self)@.read,
    {
        let byte_value: usize = if value {
            1
        } else {
            0
        };
        self.pbytes(1, byte_value)
    }

    /// Reads the next `bit_count` bits as an unsigned number, first bit most significant.
    ///
    /// Fails, and leaves the read cursor where it is, if `bit_count` is not
    /// between 1 and 32 or if fewer bits were written.
    pub fn read_bits(&mut self, bit_count: usize) -> (result: Result<usize, PacketError>)
        requires
            old(self).wf(),
        ensures
            final(self).wf(),
            final(self)@.storage == old(self)@.storage,
            final(self)@.written == old(self)@.written,
            !(1 <= bit_count <= 32) ==> result == Err::<usize, PacketError>(
                PacketError::InvalidArgument,
            ) && final(self)@ == old(self)@,
            1 <= bit_count <= 32 && old(self)@.read + bit_count > old(self)@.written ==> result
                == Err::<usize, PacketError>(PacketError::UnexpectedEof)
                    && final(self)@ == old(self)@,
            1 <= bit_count <= 32 && old(self)@.read + bit_count <= old(self)@.written ==> result
                is Ok && result->Ok_0 == bits_value(
                old(self)@.storage,
                old(self)@.read as int,
                bit_count as nat,
            ) && final(self)@.read == old(self)@.read + bit_count,
    {
        if bit_count == 0 || bit_count > 32 {
            return Err(PacketError::InvalidArgument);
        }
        let read: usize = self.reader.bit_position();
        let written: usize = self.writer.bit_position();
        if bit_count > written - read {
            return Err(PacketError::UnexpectedEof);
        }
        let (value, next) = read_field(self.buffer.as_slice(), self.reader, bit_count);
        self.reader = next;
        Ok(value as usize)
    }

    /// Moves the write cursor to the next byte boundary, if it is not at one.
    ///
    /// The bits that are passed over keep their values.
    pub fn align(&mut self)
        requires
            old(self).wf(),
        ensures
            final(self).wf(),
            final(self)@ == (PacketBitView {
                written: 8 * old(self)@.bytes_written(),
                ..old(self)@
            }),
    {
        if self.writer.bit_offset > 0 {
            self.writer = BitCursor { byte_index: self.writer.byte_index + 1, bit_offset: 0 };
        }
    }

    /// The number of bits written.
    pub fn bits_written(&self) -> (count: usize)
        requires
            self.wf(),
        ensures
            count == self@.written,
    {
        self.writer.bit_position()
    }

    /// The number of bits read.
    pub fn bits_read(&self) -> (count: usize)
        requires
            self.wf(),
        ensures
            count == self@.read,
    {
        self.reader.bit_position()
    }

    /// The bytes that hold written bits: the last of them may be filled in part.
    pub fn as_bytes(&self) -> (bytes: &[u8])
        requires
            self.wf(),
        ensures
            bytes@ == self@.storage.subrange(0, self@.bytes_written() as int),
    {
        let end: usize = if self.writer.bit_offset > 0 {
            self.writer.byte_index + 1
        } else {
            self.writer.byte_index
        };
        slice_subrange(self.buffer.as_slice(), 0, end)
    }
}

} // verus!
