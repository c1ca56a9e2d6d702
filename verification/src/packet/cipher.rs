//! The block cipher: 32 rounds of word mixing over blocks of two 32-bit words,
//! and its use on the bytes of a packet.

use crate::packet::bytes::Packet;
use crate::packet::bytes::PacketView;
use crate::packet::error::PacketError;
use crate::packet::wire::be_bytes;
use crate::packet::wire::be_read;
use crate::packet::wire::be_value;
use crate::packet::wire::be_write;
use crate::packet::wire::lemma_be_bytes_len;
use crate::packet::wire::lemma_be_bytes_of_value;
use crate::packet::wire::lemma_be_value_bound;
use crate::packet::wire::lemma_be_value_of_bytes;
use crate::packet::wire::lemma_radix_values;
use crate::packet::wire::raw_of;
use crate::packet::wire::signed_of;
use crate::packet::wire::to_raw;
use crate::packet::wire::to_signed;
use vstd::prelude::*;

verus! {

/// What the running sum grows by in each round.
pub const DELTA: i32 = -1640531527;

/// The number of rounds.
pub const ROUNDS: usize = 32;

/// The running sum after all rounds: `DELTA` times `ROUNDS`, wrapped to 32 bits.
pub const FINAL_SUM: i32 = -957401312;

/// The number of bytes in a block.
pub const BLOCK_BYTES: usize = 8;

/// One word stirred: its two shifts, combined and added to itself.
pub open spec fn mix(word: i32) -> i32 {
    ((word << 4u32) ^ (word >> 5u32)).wrapping_add(word)
}

/// The key word that the low bits of the running sum select, plus the sum.
pub open spec fn low_key(key: Seq<i32>, sum: i32) -> i32 {
    key[(sum & 3) as int].wrapping_add(sum)
}

/// The key word that bits 11 and 12 of the running sum select, plus the sum.
pub open spec fn high_key(key: Seq<i32>, sum: i32) -> i32 {
    key[((sum >> 11u32) & 3) as int].wrapping_add(sum)
}

/// The running sum after `rounds` rounds of encryption.
pub open spec fn sum_after(rounds: nat) -> i32
    decreases rounds,
{
    if rounds == 0 {
        0
    } else {
        sum_after((rounds - 1) as nat).wrapping_add(DELTA)
    }
}

/// One round of encryption, entered with the running sum `sum`.
pub open spec fn encrypt_round(block: (i32, i32), sum: i32, key: Seq<i32>) -> (i32, i32) {
    let v1 = block.1.wrapping_add(mix(block.0) ^ high_key(key, sum));
    let next = sum.wrapping_add(DELTA);
    let v0 = block.0.wrapping_add(mix(v1) ^ low_key(key, next));
    (v0, v1)
}

/// One round of decryption, entered with the running sum `sum`.
pub open spec fn decrypt_round(block: (i32, i32), sum: i32, key: Seq<i32>) -> (i32, i32) {
    let v0 = block.0.wrapping_sub(mix(block.1) ^ low_key(key, sum));
    let previous = sum.wrapping_sub(DELTA);
    let v1 = block.1.wrapping_sub(mix(v0) ^ high_key(key, previous));
    (v0, v1)
}

/// The block after the first `rounds` rounds of encryption.
pub open spec fn encrypted(block: (i32, i32), key: Seq<i32>, rounds: nat) -> (i32, i32)
    decreases rounds,
{
    if rounds == 0 {
        block
    } else {
        encrypt_round(
            encrypted(block, key, (rounds - 1) as nat),
            sum_after((rounds - 1) as nat),
            key,
        )
    }
}

/// The block after the last `rounds` rounds of encryption were undone.
pub open spec fn decrypted(block: (i32, i32), key: Seq<i32>, rounds: nat) -> (i32, i32)
    decreases rounds,
{
    if rounds == 0 {
        block
    } else {
        decrypted(decrypt_round(block, sum_after(rounds), key), key, (rounds - 1) as nat)
    }
}

/// The encryption of a block of two words under a key of four words.
pub open spec fn encrypt_block_spec(block: (i32, i32), key: Seq<i32>) -> (i32, i32) {
    encrypted(block, key, ROUNDS as nat)
}

/// The decryption of a block of two words under a key of four words.
pub open spec fn decrypt_block_spec(block: (i32, i32), key: Seq<i32>) -> (i32, i32) {
    decrypted(block, key, ROUNDS as nat)
}

/// The signed 32-bit word that the four bytes from `at` on spell in big-endian order.
pub open spec fn word_at(data: Seq<u8>, at: int) -> i32 {
    signed_of(be_value(data.subrange(at, at + 4)), 4) as i32
}

/// The four big-endian bytes of a signed 32-bit word.
pub open spec fn word_bytes(word: i32) -> Seq<u8> {
    be_bytes(raw_of(word as int, 4), 4)
}

/// The two words of an 8-byte block.
pub open spec fn block_words(block: Seq<u8>) -> (i32, i32) {
    (word_at(block, 0), word_at(block, 4))
}

/// The 8 bytes of two words.
pub open spec fn words_block(words: (i32, i32)) -> Seq<u8> {
    word_bytes(words.0) + word_bytes(words.1)
}

/// The block `words` encrypted, or decrypted, under `key`.
pub open spec fn cipher_block(words: (i32, i32), key: Seq<i32>, encrypting: bool) -> (i32, i32) {
    if encrypting {
        encrypt_block_spec(words, key)
    } else {
        decrypt_block_spec(words, key)
    }
}

/// The bytes of `data` with every whole block of 8 encrypted, or decrypted.
///
/// Blocks are counted from the start of `data`; the bytes after the last
/// whole block stay as they are.
pub open spec fn cipher_bytes(data: Seq<u8>, key: Seq<i32>, encrypting: bool) -> Seq<u8> {
    Seq::new(
        data.len(),
        |i: int|
            if i < 8 * (data.len() / 8) {
                words_block(
                    cipher_block(
                        block_words(data.subrange(8 * (i / 8), 8 * (i / 8) + 8)),
                        key,
                        encrypting,
                    ),
                )[i % 8]
            } else {
                data[i]
            },
    )
}

/// The bytes of `data` with every whole block of 8 encrypted.
pub open spec fn encrypt_bytes(data: Seq<u8>, key: Seq<i32>) -> Seq<u8> {
    cipher_bytes(data, key, true)
}

/// The bytes of `data` with every whole block of 8 decrypted.
pub open spec fn decrypt_bytes(data: Seq<u8>, key: Seq<i32>) -> Seq<u8> {
    cipher_bytes(data, key, false)
}

impl PacketView {
    /// The buffer with the bytes from `start` to `end` encrypted, or decrypted, block by block.
    ///
    /// Nothing outside the range changes, and neither do the cursor and the written extent.
    pub open spec fn ciphered(self, key: Seq<i32>, start: int, end: int, encrypting: bool) -> PacketView {
        PacketView {
            storage: self.storage.subrange(0, start) + cipher_bytes(
                self.storage.subrange(start, end),
                key,
                encrypting,
            ) + self.storage.subrange(end, self.storage.len() as int),
            ..self
        }
    }
}

/// The running sum after the last round is `FINAL_SUM`, which is `DELTA` times `ROUNDS` wrapped.
pub proof fn lemma_final_sum()
    ensures
        sum_after(ROUNDS as nat) == FINAL_SUM,
        DELTA.wrapping_mul(32) == FINAL_SUM,
{
    reveal_with_fuel(sum_after, 33);
}

/// A round of decryption undoes the round of encryption that led to its running sum.
pub proof fn lemma_round_undone(block: (i32, i32), sum: i32, key: Seq<i32>)
    ensures
        decrypt_round(encrypt_round(block, sum, key), sum.wrapping_add(DELTA), key) == block,
        encrypt_round(decrypt_round(block, sum, key), sum.wrapping_sub(DELTA), key) == block,
{
}

/// Undoing `rounds` rounds after doing them gives the block back, and so does the reverse.
pub proof fn lemma_rounds_undone(block: (i32, i32), key: Seq<i32>, rounds: nat)
    ensures
        decrypted(encrypted(block, key, rounds), key, rounds) == block,
        encrypted(decrypted(block, key, rounds), key, rounds) == block,
    decreases rounds,
{
    if rounds > 0 {
        let fewer = (rounds - 1) as nat;
        lemma_rounds_undone(block, key, fewer);
        let undone = decrypt_round(block, sum_after(rounds), key);
        lemma_rounds_undone(undone, key, fewer);
        lemma_round_undone(block, sum_after(rounds), key);
    }
}

/// Encrypting a block under `key`.
pub fn encrypt_block(v0: i32, v1: i32, key: &[i32; 4]) -> (out: (i32, i32))
    ensures
        out == encrypt_block_spec((v0, v1), key@),
{
    let mut v0: i32 = v0;
    let mut v1: i32 = v1;
    let mut sum: i32 = 0;
    let ghost start = (v0, v1);
    let mut round: usize = 0;
    while round < ROUNDS
        invariant
            round <= ROUNDS,
            sum == sum_after(round as nat),
            (v0, v1) == encrypted(start, key@, round as nat),
        decreases ROUNDS - round,
    {
        let high: usize = key_index(sum >> 11);
        v1 = v1.wrapping_add(((v0 << 4) ^ (v0 >> 5)).wrapping_add(v0) ^ key[high].wrapping_add(sum));
        sum = sum.wrapping_add(DELTA);
        let low: usize = key_index(sum);
        v0 = v0.wrapping_add(((v1 << 4) ^ (v1 >> 5)).wrapping_add(v1) ^ key[low].wrapping_add(sum));
        round = round + 1;
    }
    (v0, v1)
}

/// Decrypting a block under `key`.
pub fn decrypt_block(v0: i32, v1: i32, key: &[i32; 4]) -> (out: (i32, i32))
    ensures
        out == decrypt_block_spec((v0, v1), key@),
{
    let mut v0: i32 = v0;
    let mut v1: i32 = v1;
    let mut sum: i32 = DELTA.wrapping_mul(32);
    let ghost start = (v0, v1);
    let mut round: usize = 0;
    proof {
        lemma_final_sum();
    }
    while round < ROUNDS
        invariant
            round <= ROUNDS,
            sum == sum_after((ROUNDS - round) as nat),
            decrypted((v0, v1), key@, (ROUNDS - round) as nat) == decrypted(
                start,
                key@,
                ROUNDS as nat,
            ),
        decreases ROUNDS - round,
    {
        let low: usize = key_index(sum);
        v0 = v0.wrapping_sub(((v1 << 4) ^ (v1 >> 5)).wrapping_add(v1) ^ key[low].wrapping_add(sum));
        sum = sum.wrapping_sub(DELTA);
        let high: usize = key_index(sum >> 11);
        v1 = v1.wrapping_sub(((v0 << 4) ^ (v0 >> 5)).wrapping_add(v0) ^ key[high].wrapping_add(sum));
        round = round + 1;
    }
    (v0, v1)
}

/// The index of the key word that the two low bits of `selector` choose.
fn key_index(selector: i32) -> (index: usize)
    ensures
        index == selector & 3,
        index < 4,
{
    let low: i32 = selector & 3;
    assert(0 <= low < 4) by (bit_vector)
        requires
            low == selector & 3,
    ;
    low as usize
}

/// The two words of a block and the block of two words are one another's inverse.
pub proof fn lemma_words_of_block(words: (i32, i32))
    ensures
        words_block(words).len() == 8,
        block_words(words_block(words)) == words,
{
    lemma_radix_values();
    let first = raw_of(words.0 as int, 4);
    let second = raw_of(words.1 as int, 4);
    lemma_be_bytes_len(first, 4);
    lemma_be_bytes_len(second, 4);
    lemma_be_value_of_bytes(first, 4);
    lemma_be_value_of_bytes(second, 4);
    let block = words_block(words);
    assert(block.subrange(0, 4) =~= word_bytes(words.0));
    assert(block.subrange(4, 8) =~= word_bytes(words.1));
}

/// The block of the two words of a block is that block.
pub proof fn lemma_block_of_words(block: Seq<u8>)
    requires
        block.len() == 8,
    ensures
        words_block(block_words(block)) == block,
{
    lemma_radix_values();
    let front = block.subrange(0, 4);
    let back = block.subrange(4, 8);
    lemma_be_value_bound(front);
    lemma_be_value_bound(back);
    lemma_be_bytes_of_value(front);
    lemma_be_bytes_of_value(back);
}

/// Reads the signed 32-bit word at index `at` of `data`.
fn load_word(data: &Vec<u8>, at: usize) -> (word: i32)
    requires
        at + 4 <= data@.len(),
    ensures
        word == word_at(data@, at as int),
{
    let raw = be_read(data.as_slice(), at, 4);
    to_signed(raw, 4) as i32
}

/// Stores the signed 32-bit word `word` at index `at` of `data`.
fn store_word(data: &mut Vec<u8>, at: usize, word: i32)
    requires
        at + 4 <= old(data)@.len(),
    ensures
        final(data)@ == old(data)@.subrange(0, at as int) + word_bytes(word) + old(data)@.subrange(
            at + 4,
            old(data)@.len() as int,
        ),
        final(data)@.len() == old(data)@.len(),
{
    proof {
        lemma_radix_values();
        lemma_be_bytes_len(raw_of(word as int, 4), 4);
    }
    be_write(data, at, to_raw(word as i64, 4), 4);
}

impl Packet {
    /// Encrypts, or decrypts, the whole blocks of 8 bytes between `start` and `end`.
    fn cipher_range(&mut self, key: &[i32; 4], start: usize, end: usize, encrypting: bool)
        requires
            old(self).wf(),
            start <= end <= old(self)@.storage.len(),
        ensures
            final(self)@ == old(self)@.ciphered(key@, start as int, end as int, encrypting),
            final(self)@.storage.len() == old(self)@.storage.len(),
    {
        let ghost initial = self.bytes@;
        let ghost range = initial.subrange(start as int, end as int);
        let ghost target = cipher_bytes(range, key@, encrypting);
        let count: usize = (end - start) / BLOCK_BYTES;
        let mut block: usize = 0;
        assert(initial.len() == self.bytes.len());
        while block < count
            invariant
                block <= count,
                count == (end - start) / 8,
                start <= end <= initial.len(),
                initial.len() <= usize::MAX,
                range == initial.subrange(start as int, end as int),
                target == cipher_bytes(range, key@, encrypting),
                self.pos == old(self).pos,
                self.len == old(self).len,
                self.bytes@.len() == initial.len(),
                forall|i: int|
                    0 <= i < initial.len() ==> #[trigger] self.bytes@[i] == if start <= i < start
                        + 8 * block {
                        target[i - start]
                    } else {
                        initial[i]
                    },
            decreases count - block,
        {
            let at: usize = start + block * BLOCK_BYTES;
            let ghost before = self.bytes@;
            let v0 = load_word(&self.bytes, at);
            let v1 = load_word(&self.bytes, at + 4);
            let (w0, w1) = if encrypting {
                encrypt_block(v0, v1, key)
            } else {
                decrypt_block(v0, v1, key)
            };
            store_word(&mut self.bytes, at, w0);
            store_word(&mut self.bytes, at + 4, w1);
            proof {
                let piece = range.subrange(8 * block, 8 * block + 8);
                assert(piece.subrange(0, 4) =~= before.subrange(at as int, at + 4));
                assert(piece.subrange(4, 8) =~= before.subrange(at + 4, at + 8));
                assert forall|i: int| 0 <= i < initial.len() implies #[trigger] self.bytes@[i]
                    == if start <= i < start + 8 * (block + 1) {
                    target[i - start]
                } else {
                    initial[i]
                } by {}
            }
            block = block + 1;
        }
        assert(self.bytes@ =~= initial.subrange(0, start as int) + target + initial.subrange(
            end as int,
            initial.len() as int,
        ));
    }

    /// Encrypts every whole block of 8 bytes of what was written, from the start of the storage on.
    ///
    /// The bytes after the last whole block stay as they are. The cursor is
    /// left behind the last block. This cannot fail.
    pub fn tiny_key_encrypt(&mut self, key: &[i32; 4]) -> (result: Result<(), PacketError>)
        requires
            old(self).wf(),
        ensures
            final(self).wf(),
            result == Ok::<(), PacketError>(()),
            final(self)@ == old(self)@.ciphered(key@, 0, old(self)@.len as int, true).moved_to(
                8 * (old(self)@.len / 8),
            ),
    {
        let end: usize = self.len;
        self.cipher_range(key, 0, end, true);
        self.pos = end / BLOCK_BYTES * BLOCK_BYTES;
        Ok(())
    }

    /// Decrypts every whole block of 8 bytes of what was written, from the start of the storage on.
    ///
    /// The bytes after the last whole block stay as they are. The cursor is
    /// left behind the last block. This cannot fail.
    pub fn tiny_key_decrypt(&mut self, key: &[i32; 4]) -> (result: Result<(), PacketError>)
        requires
            old(self).wf(),
        ensures
            final(self).wf(),
            result == Ok::<(), PacketError>(()),
            final(self)@ == old(self)@.ciphered(key@, 0, old(self)@.len as int, false).moved_to(
                8 * (old(self)@.len / 8),
            ),
    {
        let end: usize = self.len;
        self.cipher_range(key, 0, end, false);
        self.pos = end / BLOCK_BYTES * BLOCK_BYTES;
        Ok(())
    }

    /// Encrypts every whole block of 8 bytes between `start` and `end`, counted from `start`.
    ///
    /// The bytes after the last whole block stay as they are, and so does
    /// the cursor. Fails, and changes nothing, if the range does not lie
    /// within what was written.
    pub fn tiny_key_encrypt_range(&mut self, key: &[i32; 4], start: usize, end: usize) -> (result:
        Result<(), PacketError>)
        requires
            old(self).wf(),
        ensures
            final(self).wf(),
            start <= end <= old(self)@.len ==> result == Ok::<(), PacketError>(()) && final(self)@
                == old(self)@.ciphered(key@, start as int, end as int, true),
            !(start <= end <= old(self)@.len) ==> result == Err::<(), PacketError>(
                PacketError::UnexpectedEof,
            ) && final(self)@ == old(self)@,
    {
        if start > end || end > self.len {
            return Err(PacketError::UnexpectedEof);
        }
        self.cipher_range(key, start, end, true);
        Ok(())
    }

    /// Decrypts every whole block of 8 bytes between `start` and `end`, counted from `start`.
    ///
    /// The bytes after the last whole block stay as they are, and so does
    /// the cursor. Fails, and changes nothing, if the range does not lie
    /// within what was written.
    pub fn tiny_key_decrypt_range(&mut self, key: &[i32; 4], start: usize, end: usize) -> (result:
        Result<(), PacketError>)
        requires
            old(self).wf(),
        ensures
            final(self).wf(),
            start <= end <= old(self)@.len ==> result == Ok::<(), PacketError>(()) && final(self)@
                == old(self)@.ciphered(key@, start as int, end as int, false),
            !(start <= end <= old(self)@.len) ==> result == Err::<(), PacketError>(
                PacketError::UnexpectedEof,
            ) && final(self)@ == old(self)@,
    {
        if start > end || end > self.len {
            return Err(PacketError::UnexpectedEof);
        }
        self.cipher_range(key, start, end, false);
        Ok(())
    }
}

} // verus!
