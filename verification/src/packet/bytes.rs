//! The byte buffer: zero-filled storage, one cursor and a written extent.

use crate::packet::error::PacketError;
use crate::packet::wire::be_bytes;
use crate::packet::wire::be_read;
use crate::packet::wire::be_value;
use crate::packet::wire::be_write;
use crate::packet::wire::lemma_be_bytes_len;
use crate::packet::wire::radix;
use crate::packet::wire::zeros;
use std::ops::Range;
use vstd::prelude::*;
use vstd::slice::slice_subrange;
use vstd::slice::slice_to_vec;

verus! {

/// A growable byte buffer addressed through a cursor.
///
/// Reads and writes both happen at the cursor. The written extent is the
/// logical length of the data: a read never goes past it, and a write that
/// ends beyond it moves it forward. The storage may be larger than the
/// written extent; a new buffer is filled with zeros, and growth adds zeros.
#[derive(Clone, Debug)]
pub struct Packet {
    pub(crate) bytes: Vec<u8>,
    pub(crate) pos: usize,
    pub(crate) len: usize,
}

/// What a [`Packet`] is, as mathematics.
pub struct PacketView {
    /// Every byte of the backing storage; its length is the capacity.
    pub storage: Seq<u8>,
    /// The cursor: the index of the next byte to read or write.
    pub pos: nat,
    /// The written extent: the logical length of the data.
    pub len: nat,
}

/// The capacity of a buffer of `capacity` bytes after room for `needed` bytes was asked for.
///
/// A buffer that is large enough stays as it is. Otherwise it doubles, unless
/// even twice the capacity is too small or does not fit the machine's
/// addresses; then it takes exactly what is needed.
pub open spec fn grown_capacity(capacity: nat, needed: nat) -> nat {
    if needed <= capacity {
        capacity
    } else if needed <= 2 * capacity && 2 * capacity <= usize::MAX {
        2 * capacity
    } else {
        needed
    }
}

impl PacketView {
    /// The cursor lies within the written extent, which lies within the storage.
    pub open spec fn wf(self) -> bool {
        self.pos <= self.len <= self.storage.len()
    }

    /// The number of bytes between the cursor and the written extent.
    pub open spec fn available(self) -> nat {
        (self.len - self.pos) as nat
    }

    /// The bytes between the cursor and the written extent.
    pub open spec fn remaining(self) -> Seq<u8> {
        self.storage.subrange(self.pos as int, self.len as int)
    }

    /// The bytes from the start of the storage to the written extent.
    pub open spec fn written(self) -> Seq<u8> {
        self.storage.subrange(0, self.len as int)
    }

    /// The byte that lies `offset` bytes after the cursor.
    pub open spec fn ahead(self, offset: nat) -> u8 {
        self.storage[(self.pos + offset) as int]
    }

    /// The `count` bytes that start at the cursor.
    pub open spec fn upcoming(self, count: nat) -> Seq<u8> {
        self.storage.subrange(self.pos as int, (self.pos + count) as int)
    }

    /// The same buffer with the cursor `count` bytes further on.
    pub open spec fn skipped(self, count: nat) -> PacketView {
        PacketView { pos: self.pos + count, ..self }
    }

    /// The same buffer with the cursor at `index`.
    pub open spec fn moved_to(self, index: nat) -> PacketView {
        PacketView { pos: index, ..self }
    }

    /// The same buffer with room for at least `needed` bytes, the new ones zero.
    pub open spec fn grown(self, needed: nat) -> PacketView {
        let capacity = self.storage.len();
        PacketView {
            storage: self.storage + zeros((grown_capacity(capacity, needed) - capacity) as nat),
            ..self
        }
    }

    /// The buffer after `data` was written at the cursor.
    ///
    /// The storage grows if `data` does not fit, `data` replaces what stood
    /// at the cursor, the cursor moves past it, and the written extent
    /// follows the cursor where the cursor overtakes it.
    pub open spec fn put(self, data: Seq<u8>) -> PacketView {
        let end = self.pos + data.len();
        let room = self.grown(end).storage;
        PacketView {
            storage: room.subrange(0, self.pos as int) + data + room.subrange(
                end as int,
                room.len() as int,
            ),
            pos: end,
            len: if end > self.len {
                end
            } else {
                self.len
            },
        }
    }
}

impl View for Packet {
    type V = PacketView;

    open(crate) spec fn view(&self) -> PacketView {
        PacketView { storage: self.bytes@, pos: self.pos as nat, len: self.len as nat }
    }
}

/// Calls `core::ops::IndexMut::index_mut` of a slice with a `Range<usize>`,
/// which borrows the part of `slice` from index `from` up to index `to` for
/// change.
///
/// The standard library documents that the part has the elements of that
/// range and that the call panics for a range that does not lie within the
/// slice, which the contract leaves out. What is written to the part is
/// written to the slice in its place; a slice cannot change its length.
#[verifier::external_body]
fn part_mut(slice: &mut [u8], from: usize, to: usize) -> (part: &mut [u8])
    requires
        from <= to <= old(slice)@.len(),
    ensures
        part@ == old(slice)@.subrange(from as int, to as int),
        final(part)@.len() == part@.len(),
        final(slice)@ == old(slice)@.subrange(0, from as int) + final(part)@ + old(slice)@.subrange(
            to as int,
            old(slice)@.len() as int,
        ),
{
    &mut slice[from..to]
}

impl From<Vec<u8>> for Packet {
    /// A packet whose storage is `value`, all of it written, with the cursor at 0.
    fn from(value: Vec<u8>) -> (packet: Packet)
        ensures
            packet.wf(),
            packet@ == (PacketView { storage: value@, pos: 0, len: value@.len() }),
    {
        Packet { pos: 0, len: value.len(), bytes: value }
    }
}

impl vstd::std_specs::convert::FromSpecImpl<Vec<u8>> for Packet {
    open spec fn obeys_from_spec() -> bool {
        true
    }

    open(crate) spec fn from_spec(value: Vec<u8>) -> Packet {
        Packet { pos: 0, len: value.len(), bytes: value }
    }
}

impl Packet {
    /// The invariant of every packet: see [`PacketView::wf`].
    pub open spec fn wf(&self) -> bool {
        self@.wf()
    }

    /// Creates a buffer of `capacity` zero bytes, with nothing written and the cursor at 0.
    pub fn new(capacity: usize) -> (packet: Self)
        ensures
            packet.wf(),
            packet@ == (PacketView { storage: zeros(capacity as nat), pos: 0, len: 0 }),
    {
        let buf = vec![0u8; capacity];
        assert(buf@ =~= zeros(capacity as nat));
        Self { bytes: buf, pos: 0, len: 0 }
    }

    /// A packet whose storage is a copy of `value`, all of it written, with the cursor at 0.
    pub fn from_slice(value: &[u8]) -> (packet: Self)
        ensures
            packet.wf(),
            packet@ == (PacketView { storage: value@, pos: 0, len: value@.len() }),
    {
        Self { pos: 0, len: value.len(), bytes: slice_to_vec(value) }
    }

    /// Creates a buffer without any storage.
    pub fn empty() -> (packet: Self)
        ensures
            packet.wf(),
            packet@ == (PacketView { storage: Seq::empty(), pos: 0, len: 0 }),
    {
        Self { bytes: Vec::new(), pos: 0, len: 0 }
    }

    /// Forgets what was written: the cursor and the written extent return to 0.
    ///
    /// The storage keeps its size and its bytes.
    pub fn clear(&mut self)
        ensures
            final(self).wf(),
            final(self)@ == (PacketView { pos: 0, len: 0, ..old(self)@ }),
    {
        self.pos = 0;
        self.len = 0;
    }

    /// Moves the cursor to `index`, which must not lie beyond the written extent.
    pub fn set_pos(&mut self, index: usize) -> (result: Result<(), PacketError>)
        requires
            old(self).wf(),
        ensures
            final(self).wf(),
            index <= old(self)@.len ==> result == Ok::<(), PacketError>(())
                && final(self)@ == old(self)@.moved_to(index as nat),
            index > old(self)@.len ==> result == Err::<(), PacketError>(
                PacketError::InvalidArgument,
            ) && final(self)@ == old(self)@,
    {
        if index > self.len {
            return Err(PacketError::InvalidArgument);
        }
        self.pos = index;
        Ok(())
    }

    /// The next byte, if one is available; the cursor stays.
    pub fn peek(&self) -> (next: Option<u8>)
        requires
            self.wf(),
        ensures
            next == if self@.available() == 0 {
                None
            } else {
                Some(self@.ahead(0))
            },
    {
        if self.pos >= self.len {
            return None;
        }
        Some(self.bytes[self.pos])
    }

    /// Moves the cursor forward by `bytes`, or to the written extent if fewer are available.
    pub fn skip(&mut self, bytes: usize)
        requires
            old(self).wf(),
        ensures
            final(self).wf(),
            final(self)@ == old(self)@.skipped(
                if bytes as nat <= old(self)@.available() {
                    bytes as nat
                } else {
                    old(self)@.available()
                },
            ),
    {
        let available = self.len - self.pos;
        if bytes <= available {
            self.pos = self.pos + bytes;
        } else {
            self.pos = self.len;
        }
    }

    /// The cursor.
    pub fn get_pos(&self) -> (pos: usize)
        ensures
            pos == self@.pos,
    {
        self.pos
    }

    /// The written extent: the logical length of the data.
    pub fn write_extent(&self) -> (len: usize)
        ensures
            len == self@.len,
    {
        self.len
    }

    /// Whether no byte is available.
    pub fn is_empty(&self) -> (empty: bool)
        requires
            self.wf(),
        ensures
            empty == (self@.available() == 0),
    {
        self.pos >= self.len
    }

    /// The number of bytes available. A well-formed packet always has an answer.
    pub fn available(&self) -> (count: Option<usize>)
        requires
            self.wf(),
        ensures
            count is Some && count->Some_0 == self@.available(),
    {
        Some(self.len - self.pos)
    }

    /// The number of bytes available.
    pub fn available_count(&self) -> (count: usize)
        requires
            self.wf(),
        ensures
            count == self@.available(),
    {
        self.len - self.pos
    }

    /// Whether at least `count` bytes are available.
    pub fn has_available(&self, count: usize) -> (enough: bool)
        requires
            self.wf(),
        ensures
            enough == (count <= self@.available()),
    {
        count <= self.len - self.pos
    }

    /// The size of the storage: how many bytes the buffer holds before it has to grow.
    pub fn capacity(&self) -> (capacity: usize)
        ensures
            capacity == self@.storage.len(),
    {
        self.bytes.len()
    }

    /// The number of bytes in the storage, written or not; the cursor plays no part.
    pub fn len(&self) -> (len: usize)
        ensures
            len == self@.storage.len(),
    {
        self.bytes.len()
    }

    /// Makes room for at least `new_cap` bytes in all. Nothing stored changes.
    pub fn grow(&mut self, new_cap: usize)
        requires
            old(self).wf(),
        ensures
            final(self).wf(),
            final(self)@ == old(self)@.grown(new_cap as nat),
            final(self)@.storage.len() >= new_cap,
            final(self)@.storage.subrange(0, old(self)@.storage.len() as int) == old(self)@.storage,
    {
        let capacity = self.bytes.len();
        if new_cap > capacity {
            let target = if capacity <= usize::MAX / 2 && new_cap <= capacity * 2 {
                capacity * 2
            } else {
                new_cap
            };
            self.bytes.resize(target, 0u8);
            assert(self.bytes@ =~= old(self)@.grown(new_cap as nat).storage);
        }
    }

    /// Makes room for `space_needed` bytes at the cursor.
    pub(crate) fn ensure_capacity(&mut self, space_needed: usize)
        requires
            old(self).wf(),
            old(self)@.pos + space_needed <= usize::MAX,
        ensures
            final(self).wf(),
            final(self)@ == old(self)@.grown(old(self)@.pos + space_needed as nat),
            final(self)@.storage.len() >= old(self)@.pos + space_needed,
    {
        self.grow(self.pos + space_needed);
    }

    /// Writes `value` at the cursor and moves the cursor past it.
    ///
    /// The storage grows where `value` does not fit, and the written extent
    /// follows the cursor where the cursor overtakes it.
    pub(crate) fn write_at_cursor(&mut self, value: &[u8])
        requires
            old(self).wf(),
            old(self)@.pos + value@.len() <= usize::MAX,
        ensures
            final(self).wf(),
            final(self)@ == old(self)@.put(value@),
    {
        let count = value.len();
        self.ensure_capacity(count);
        let ghost room = self.bytes@;
        let start = self.pos;
        let mut i: usize = 0;
        while i < count
            invariant
                i <= count,
                count == value@.len(),
                start + count <= room.len(),
                start + count <= usize::MAX,
                self.pos == start,
                self.len == old(self).len,
                self.bytes@ == room.subrange(0, start as int) + value@.subrange(0, i as int)
                    + room.subrange(start + i, room.len() as int),
            decreases count - i,
        {
            self.bytes[start + i] = value[i];
            i = i + 1;
        }
        self.pos = start + count;
        if self.pos > self.len {
            self.len = self.pos;
        }
        assert(value@.subrange(0, count as int) =~= value@);
    }
}

impl Packet {
    /// Reads a big-endian number of `width` bytes at the cursor and moves the cursor past it.
    ///
    /// Fails, and leaves the cursor where it is, if fewer than `width` bytes are available.
    pub fn take_be(&mut self, width: usize) -> (result: Result<u64, PacketError>)
        requires
            old(self).wf(),
            width <= 8,
        ensures
            final(self).wf(),
            old(self)@.available() < width ==> result == Err::<u64, PacketError>(
                PacketError::UnexpectedEof,
            ) && final(self)@ == old(self)@,
            old(self)@.available() >= width ==> result is Ok && result->Ok_0 == be_value(
                old(self)@.upcoming(width as nat),
            ) && final(self)@ == old(self)@.skipped(width as nat),
            result is Ok ==> result->Ok_0 < radix(width as nat),
    {
        if self.len - self.pos < width {
            return Err(PacketError::UnexpectedEof);
        }
        let value = be_read(self.bytes.as_slice(), self.pos, width);
        self.pos = self.pos + width;
        Ok(value)
    }

    /// Writes `value` as a big-endian number of `width` bytes at the cursor.
    ///
    /// The bytes written are the `width` low-order bytes of `value`.
    pub fn put_be(&mut self, value: u64, width: usize)
        requires
            old(self).wf(),
            width <= 8,
            old(self)@.pos + width <= usize::MAX,
        ensures
            final(self).wf(),
            final(self)@ == old(self)@.put(be_bytes(value as nat, width as nat)),
            final(self)@.pos == old(self)@.pos + width,
    {
        proof {
            lemma_be_bytes_len(value as nat, width as nat);
        }
        self.ensure_capacity(width);
        be_write(&mut self.bytes, self.pos, value, width);
        self.pos = self.pos + width;
        if self.pos > self.len {
            self.len = self.pos;
        }
    }

    /// The bytes between the cursor and the written extent.
    pub fn slice_remaining(&self) -> (slice: &[u8])
        requires
            self.wf(),
        ensures
            slice@ == self@.remaining(),
    {
        slice_subrange(self.bytes.as_slice(), self.pos, self.len)
    }

    /// The bytes between the cursor and the written extent.
    pub fn get_slice(&self) -> (slice: &[u8])
        requires
            self.wf(),
        ensures
            slice@ == self@.remaining(),
    {
        slice_subrange(self.bytes.as_slice(), self.pos, self.len)
    }

    /// The part `range` of the bytes between the cursor and the written extent, if it lies within them.
    pub fn get(&self, range: Range<usize>) -> (part: Option<&[u8]>)
        requires
            self.wf(),
        ensures
            range.start <= range.end <= self@.available() ==> part is Some && part->Some_0@
                == self@.remaining().subrange(range.start as int, range.end as int),
            !(range.start <= range.end <= self@.available()) ==> part is None,
    {
        if range.start <= range.end && range.end <= self.len - self.pos {
            Some(slice_subrange(self.slice_remaining(), range.start, range.end))
        } else {
            None
        }
    }

    /// A copy of the bytes between the cursor and the written extent.
    pub fn to_vec(&self) -> (copy: Vec<u8>)
        requires
            self.wf(),
        ensures
            copy@ == self@.remaining(),
    {
        slice_to_vec(self.slice_remaining())
    }

    /// The storage itself, to be changed at will.
    ///
    /// The cursor and the written extent stay as they are, so the packet is
    /// well formed afterwards only if the storage still covers the written
    /// extent.
    pub fn get_inner_mut(&mut self) -> (inner: &mut Vec<u8>)
        ensures
            inner@ == old(self)@.storage,
            final(self)@ == (PacketView { storage: final(inner)@, ..old(self)@ }),
    {
        &mut self.bytes
    }

    /// The bytes between the cursor and the written extent, to be changed in place.
    ///
    /// Whatever is done to them, the packet stays well formed: a slice
    /// cannot change its length.
    pub fn as_mut_slice_all(&mut self) -> (slice: &mut [u8])
        requires
            old(self).wf(),
        ensures
            slice@ == old(self)@.remaining(),
            final(slice)@.len() == slice@.len(),
            final(self)@ == (PacketView {
                storage: old(self)@.storage.subrange(0, old(self)@.pos as int) + final(slice)@
                    + old(self)@.storage.subrange(
                    old(self)@.len as int,
                    old(self)@.storage.len() as int,
                ),
                ..old(self)@
            }),
    {
        let from: usize = self.pos;
        let to: usize = self.len;
        part_mut(self.bytes.as_mut_slice(), from, to)
    }

    /// Reads up to `len` bytes at the cursor, as many as are available, and moves the cursor past them.
    pub fn gdata(&mut self, len: usize) -> (data: Vec<u8>)
        requires
            old(self).wf(),
        ensures
            final(self).wf(),
            ({
                let count = if len as nat <= old(self)@.available() {
                    len as nat
                } else {
                    old(self)@.available()
                };
                &&& data@ == old(self)@.upcoming(count)
                &&& final(self)@ == old(self)@.skipped(count)
            }),
    {
        let available: usize = self.len - self.pos;
        let count: usize = if len <= available {
            len
        } else {
            available
        };
        let data = slice_to_vec(slice_subrange(self.bytes.as_slice(), self.pos, self.pos + count));
        self.pos = self.pos + count;
        data
    }

    /// Overwrites the bytes at the cursor with `data`, as far as bytes are available.
    ///
    /// The storage does not grow and the written extent stays: what of
    /// `data` does not fit before the written extent is not written.
    pub fn pdata(&mut self, data: &[u8])
        requires
            old(self).wf(),
        ensures
            final(self).wf(),
            ({
                let count = if data@.len() <= old(self)@.available() {
                    data@.len()
                } else {
                    old(self)@.available()
                };
                final(self)@ == old(self)@.put(data@.subrange(0, count as int))
            }),
    {
        let available: usize = self.len - self.pos;
        let count: usize = if data.len() <= available {
            data.len()
        } else {
            available
        };
        self.write_at_cursor(slice_subrange(data, 0, count));
    }

    /// Appends `slice` to the storage and extends the written extent to the end of the storage.
    ///
    /// The cursor stays where it is.
    pub fn append_slice(&mut self, slice: &[u8])
        requires
            old(self).wf(),
        ensures
            final(self).wf(),
            final(self)@ == (PacketView {
                storage: old(self)@.storage + slice@,
                pos: old(self)@.pos,
                len: old(self)@.storage.len() + slice@.len(),
            }),
    {
        self.bytes.extend_from_slice(slice);
        self.len = self.bytes.len();
        assert(self.bytes@ =~= old(self)@.storage + slice@);
    }

    /// Moves the bytes between the cursor and the written extent to the front.
    ///
    /// The cursor returns to 0 and the written extent shrinks by as much as
    /// the cursor moved. The storage keeps its size; its bytes from the new
    /// written extent on stay as they were.
    pub fn compact(&mut self)
        requires
            old(self).wf(),
        ensures
            final(self).wf(),
            final(self)@ == (PacketView {
                storage: old(self)@.remaining() + old(self)@.storage.subrange(
                    old(self)@.available() as int,
                    old(self)@.storage.len() as int,
                ),
                pos: 0,
                len: old(self)@.available(),
            }),
    {
        let offset: usize = self.pos;
        let count: usize = self.len - self.pos;
        let ghost initial = self.bytes@;
        let mut i: usize = 0;
        while i < count
            invariant
                i <= count,
                offset + count <= initial.len(),
                offset + count <= usize::MAX,
                self.pos == offset,
                self.len == offset + count,
                self.bytes@ == initial.subrange(offset as int, offset + i) + initial.subrange(
                    i as int,
                    initial.len() as int,
                ),
            decreases count - i,
        {
            let byte: u8 = self.bytes[offset + i];
            self.bytes[i] = byte;
            i = i + 1;
        }
        self.pos = 0;
        self.len = count;
    }

    /// Sets the written extent to `len`.
    ///
    /// The storage grows where it is shorter than `len`, and a cursor that
    /// would lie beyond the new written extent moves back to it.
    pub fn set_len(&mut self, len: usize)
        requires
            old(self).wf(),
        ensures
            final(self).wf(),
            final(self)@ == (PacketView {
                storage: old(self)@.grown(len as nat).storage,
                pos: if old(self)@.pos <= len {
                    old(self)@.pos
                } else {
                    len as nat
                },
                len: len as nat,
            }),
    {
        self.grow(len);
        if self.pos > len {
            self.pos = len;
        }
        self.len = len;
    }
}

} // verus!
