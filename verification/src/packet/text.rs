//! Text in a packet: the bytes of a string followed by one zero byte.
//!
//! A string is written as its UTF-8 bytes. What is read is decoded as
//! windows-1252, the single-byte code page of the peers this format comes
//! from; the two agree on ASCII.

use crate::packet::bytes::Packet;
use crate::packet::bytes::PacketView;
use crate::packet::error::PacketError;
use vstd::prelude::*;
use vstd::slice::slice_subrange;
use vstd::string::StringSliceAdditionalSpecFns;

verus! {

/// The most bytes of text that are handed to the decoder at once.
///
/// Within this bound the decoder's own size computations cannot overflow.
pub const MAX_TEXT_BYTES: usize = usize::MAX / 8;

/// Whether `index` is where `needle` first occurs in `bytes`.
pub open spec fn first_at(bytes: Seq<u8>, needle: u8, index: int) -> bool {
    &&& 0 <= index < bytes.len()
    &&& bytes[index] == needle
    &&& forall|i: int| 0 <= i < index ==> bytes[i] != needle
}

/// Whether `needle` occurs in `bytes`.
pub open spec fn has_byte(bytes: Seq<u8>, needle: u8) -> bool {
    exists|i: int| 0 <= i < bytes.len() && bytes[i] == needle
}

/// Where `needle` first occurs in `bytes`, if it occurs at all.
pub open spec fn first_index(bytes: Seq<u8>, needle: u8) -> int {
    choose|index: int| first_at(bytes, needle, index)
}

/// Whether every one of `bytes` is an ASCII code: below 128.
pub open spec fn is_ascii_bytes(bytes: Seq<u8>) -> bool {
    forall|i: int| 0 <= i < bytes.len() ==> bytes[i] < 0x80
}

/// The text whose characters have `bytes` as their codes.
pub open spec fn ascii_text(bytes: Seq<u8>) -> Seq<char> {
    Seq::new(bytes.len(), |i: int| bytes[i] as char)
}

/// What `encoding_rs::Encoding::decode` makes of `bytes` when called on
/// `encoding_rs::WINDOWS_1252`: the decoded text, and whether any part of
/// the input was malformed and replaced.
pub uninterp spec fn windows_1252_decode(bytes: Seq<u8>) -> (Seq<char>, bool);

/// Calls `memchr::memchr`, which searches `haystack` for `needle`.
///
/// Its documentation promises the index of the first occurrence, below the
/// length of `haystack`, or `None` if `needle` does not occur.
#[verifier::external_body]
fn find_byte(needle: u8, haystack: &[u8]) -> (found: Option<usize>)
    ensures
        found matches Some(index) ==> first_at(haystack@, needle, index as int),
        found is None ==> !has_byte(haystack@, needle),
{
    memchr::memchr(needle, haystack)
}

/// Calls `encoding_rs::Encoding::decode` on `encoding_rs::WINDOWS_1252`.
///
/// The call looks for a byte order mark, decodes, and replaces what is
/// malformed; it returns the text, the encoding it used, and whether it
/// replaced anything. The text and the flag are a function of the bytes
/// alone, which the contract names. Of input that is ASCII throughout the
/// documentation says that the text is borrowed from the input as it
/// stands, and the source returns it with the flag unset; the contract
/// says so too. The call can panic when it computes the size of its
/// output; for input of at most `MAX_TEXT_BYTES` bytes that computation, at
/// most three bytes of output for each byte of input and three more, stays
/// far below the largest `isize`.
#[verifier::external_body]
fn decode_windows_1252(bytes: &[u8]) -> (decoded: (String, bool))
    requires
        bytes@.len() <= MAX_TEXT_BYTES,
    ensures
        decoded.0@ == windows_1252_decode(bytes@).0,
        decoded.1 == windows_1252_decode(bytes@).1,
        is_ascii_bytes(bytes@) ==> decoded.0@ == ascii_text(bytes@) && !decoded.1,
{
    let (text, _, had_errors) = encoding_rs::WINDOWS_1252.decode(bytes);
    (text.into_owned(), had_errors)
}

impl PacketView {
    /// Whether a zero byte is available.
    pub open spec fn has_terminator(self) -> bool {
        has_byte(self.remaining(), 0)
    }

    /// The number of bytes between the cursor and the first zero byte that is available.
    pub open spec fn text_len(self) -> nat {
        first_index(self.remaining(), 0) as nat
    }

    /// The bytes between the cursor and the first zero byte that is available.
    pub open spec fn text_bytes(self) -> Seq<u8> {
        self.upcoming(self.text_len())
    }
}

impl Packet {
    /// Writes the bytes of `value` and then a zero byte.
    pub fn pjstr(&mut self, value: &str)
        requires
            old(self).wf(),
            old(self)@.pos + value.spec_bytes().len() + 1 <= usize::MAX,
        ensures
            final(self).wf(),
            final(self)@ == old(self)@.put(value.spec_bytes()).put(seq![0u8]),
    {
        self.write_at_cursor(value.as_bytes());
        self.put_terminator();
    }

    /// Writes a zero byte, then the bytes of `value`, then another zero byte.
    pub fn gjstr2(&mut self, value: &str)
        requires
            old(self).wf(),
            old(self)@.pos + value.spec_bytes().len() + 2 <= usize::MAX,
        ensures
            final(self).wf(),
            final(self)@ == old(self)@.put(seq![0u8]).put(value.spec_bytes()).put(seq![0u8]),
    {
        self.put_terminator();
        self.pjstr(value);
    }

    /// Writes a zero byte.
    fn put_terminator(&mut self)
        requires
            old(self).wf(),
            old(self)@.pos + 1 <= usize::MAX,
        ensures
            final(self).wf(),
            final(self)@ == old(self)@.put(seq![0u8]),
    {
        let zero: [u8; 1] = [0u8];
        assert(zero@ =~= seq![0u8]);
        self.write_at_cursor(zero.as_slice());
    }

    /// Ends the reading of a text of `length` bytes that the decoder has seen.
    ///
    /// If the decoder found the bytes malformed, this fails and the cursor
    /// stays. Otherwise the cursor moves past the text and its zero byte,
    /// and the text is the result.
    pub fn accept_text(&mut self, length: usize, text: String, had_errors: bool) -> (result: Result<
        String,
        PacketError,
    >)
        requires
            old(self).wf(),
            length < old(self)@.available(),
        ensures
            final(self).wf(),
            had_errors ==> result == Err::<String, PacketError>(PacketError::Decode) && final(self)@
                == old(self)@,
            !had_errors ==> result == Ok::<String, PacketError>(text)
                && final(self)@ == old(self)@.skipped((length + 1) as nat),
    {
        if had_errors {
            return Err(PacketError::Decode);
        }
        self.pos = self.pos + length + 1;
        Ok(text)
    }

    /// Reads the text that ends at the next zero byte, and moves the cursor past that byte.
    ///
    /// Fails, and leaves the cursor where it is, if no zero byte is
    /// available, if the text is longer than `MAX_TEXT_BYTES`, or if the
    /// decoder finds the bytes malformed. Text that is ASCII throughout is
    /// never malformed, and its characters are its bytes.
    pub fn gjstr(&mut self) -> (result: Result<String, PacketError>)
        requires
            old(self).wf(),
        ensures
            final(self).wf(),
            ({
                let before = old(self)@;
                let decoded = windows_1252_decode(before.text_bytes());
                if before.has_terminator() && before.text_len() <= MAX_TEXT_BYTES && !decoded.1 {
                    &&& result is Ok
                    &&& result->Ok_0@ == decoded.0
                    &&& final(self)@ == before.skipped(before.text_len() + 1)
                } else {
                    &&& result == Err::<String, PacketError>(PacketError::Decode)
                    &&& final(self)@ == before
                }
            }),
            old(self)@.has_terminator()
                && old(self)@.text_len() <= MAX_TEXT_BYTES
                && is_ascii_bytes(
                old(self)@.text_bytes(),
            ) ==> result is Ok && result->Ok_0@ == ascii_text(old(self)@.text_bytes()),
    {
        let remaining = self.slice_remaining();
        match find_byte(0, remaining) {
            None => Err(PacketError::Decode),
            Some(length) => {
                if length > MAX_TEXT_BYTES {
                    return Err(PacketError::Decode);
                }
                let bytes = slice_subrange(remaining, 0, length);
                assert(bytes@ =~= old(self)@.text_bytes());
                let (text, had_errors) = decode_windows_1252(bytes);
                self.accept_text(length, text, had_errors)
            },
        }
    }
}

} // verus!
