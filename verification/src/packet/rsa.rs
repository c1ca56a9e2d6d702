//! The big-integer transform: what was written becomes a length and the
//! bytes of a modular power.

use crate::packet::bytes::Packet;
use crate::packet::bytes::PacketView;
use crate::packet::error::PacketError;
use crate::packet::wire::be_bytes;
use crate::packet::wire::be_value;
use crate::packet::wire::lemma_be_bytes_of_value;
use crate::packet::wire::lemma_be_value_bound;
use crate::packet::wire::lemma_radix_grows;
use crate::packet::wire::radix;
use crate::packet::wire::raw_of;
use crate::packet::wire::signed_of;
use num_bigint::BigInt;
use num_bigint::Sign;
use vstd::arithmetic::power::pow;
use vstd::prelude::*;
use vstd::slice::slice_subrange;

verus! {

/// The most bytes of ciphertext that the length in front of it can count.
pub const MAX_CIPHERTEXT_BYTES: usize = 0xffff;

/// `num_bigint::BigInt`, an integer of any size. Nothing of its inside is used.
#[verifier::external_type_specification]
#[verifier::external_body]
pub struct ExBigInt(num_bigint::BigInt);

/// What `num_bigint::BigInt::to_signed_bytes_be` makes of `value`: its
/// big-endian bytes in two's complement.
pub uninterp spec fn bigint_to_signed_be(value: BigInt) -> Seq<u8>;

/// The integer that `digits` spell as big-endian bytes in two's complement. No bytes spell 0.
pub open spec fn signed_value(digits: Seq<u8>) -> int {
    signed_of(be_value(digits), digits.len())
}

/// The integer that `value` is: what its big-endian bytes in two's complement spell.
pub open spec fn bigint_int(value: BigInt) -> int {
    signed_value(bigint_to_signed_be(value))
}

/// Whether `value` is one of the integers that `width` bytes spell in two's complement.
pub open spec fn fits_signed(value: int, width: nat) -> bool {
    -(radix(width) / 2) <= value < radix(width) / 2
}

/// Whether `width` is the least number of bytes, and at least one, that spell `value` in two's complement.
pub open spec fn is_signed_width(value: int, width: nat) -> bool {
    &&& width >= 1
    &&& fits_signed(value, width)
    &&& width == 1 || !fits_signed(value, (width - 1) as nat)
}

/// The least number of bytes, and at least one, that spell `value` in two's complement.
pub open spec fn signed_width(value: int) -> nat {
    choose|width: nat| is_signed_width(value, width)
}

/// The shortest big-endian bytes, and at least one, that spell `value` in two's complement.
pub open spec fn shortest_signed_be(value: int) -> Seq<u8> {
    be_bytes(raw_of(value, signed_width(value)), signed_width(value))
}

/// The sign of an integer: -1, 0 or 1.
pub open spec fn signum(value: int) -> int {
    if value < 0 {
        -1
    } else if value == 0 {
        0
    } else {
        1
    }
}

/// The remainder of `value` by `modulus` that has the sign of `modulus`, or is 0.
pub open spec fn floor_mod(value: int, modulus: int) -> int {
    if modulus > 0 {
        value % modulus
    } else if value % (-modulus) == 0 {
        0
    } else {
        value % (-modulus) + modulus
    }
}

/// `base` to the power `exponent`, reduced by `modulus` to a remainder with the sign of `modulus`.
pub open spec fn modular_power(base: int, exponent: int, modulus: int) -> int {
    floor_mod(pow(base, exponent as nat), modulus)
}

/// Calls `num_bigint::BigInt::sign`, which returns the sign stored in `value`.
///
/// The stored sign is `Sign::Minus` for a negative integer, `Sign::NoSign`
/// for zero and `Sign::Plus` for a positive one; they come back as -1, 0
/// and 1.
#[verifier::external_body]
fn sign_of(value: &BigInt) -> (sign: i8)
    ensures
        sign == signum(bigint_int(*value)),
{
    match value.sign() {
        Sign::Minus => -1,
        Sign::NoSign => 0,
        Sign::Plus => 1,
    }
}

/// Calls `num_bigint::BigInt::from_signed_bytes_be`, which reads `digits` as
/// a big-endian integer in two's complement: negative if the first byte is
/// above 127, and 0 if there is no byte. It accepts every input.
#[verifier::external_body]
fn from_signed_be(digits: &[u8]) -> (value: BigInt)
    ensures
        bigint_int(value) == signed_value(digits@),
{
    BigInt::from_signed_bytes_be(digits)
}

/// Calls `num_bigint::BigInt::modpow`, which raises `base` to `exponent`
/// modulo `modulus`.
///
/// Its documentation says that the result rounds as a floored division
/// does: it lies from 0 up to the modulus for a positive modulus, and from
/// the modulus up to 0 for a negative one. The call panics on a negative
/// exponent and on a zero modulus, and on nothing else; the contract
/// leaves both out.
#[verifier::external_body]
fn modpow(base: &BigInt, exponent: &BigInt, modulus: &BigInt) -> (power: BigInt)
    requires
        bigint_int(*exponent) >= 0,
        bigint_int(*modulus) != 0,
    ensures
        bigint_int(power) == modular_power(
            bigint_int(*base),
            bigint_int(*exponent),
            bigint_int(*modulus),
        ),
{
    base.modpow(exponent, modulus)
}

/// Calls `num_bigint::BigInt::to_signed_bytes_be`, which writes `value` as
/// big-endian bytes in two's complement. It accepts every input.
///
/// The bytes are as few as spell the integer, and at least one: the source
/// takes the bytes of the magnitude without leading zeros, one zero byte
/// for 0, and puts a byte in front only where the sign needs it.
#[verifier::external_body]
fn to_signed_be(value: &BigInt) -> (digits: Vec<u8>)
    ensures
        digits@ == bigint_to_signed_be(*value),
        is_signed_width(signed_value(digits@), digits@.len()),
{
    value.to_signed_bytes_be()
}

/// The least width is the only one: bytes that are as few as spell an
/// integer are its shortest bytes.
pub proof fn lemma_shortest_is_unique(digits: Seq<u8>)
    requires
        is_signed_width(signed_value(digits), digits.len()),
    ensures
        signed_width(signed_value(digits)) == digits.len(),
        shortest_signed_be(signed_value(digits)) == digits,
{
    let value = signed_value(digits);
    let width = digits.len();
    let chosen = signed_width(value);
    if chosen < width {
        lemma_radix_grows(chosen, (width - 1) as nat);
    } else if width < chosen {
        lemma_radix_grows(width, (chosen - 1) as nat);
    }
    lemma_be_value_bound(digits);
    lemma_be_bytes_of_value(digits);
}

impl PacketView {
    /// The bytes from the start of the storage to the cursor.
    pub open spec fn before_cursor(self) -> Seq<u8> {
        self.storage.subrange(0, self.pos as int)
    }

    /// The buffer after `ciphertext` replaced its content.
    ///
    /// From the start of the storage on stand the length of `ciphertext`,
    /// as a big-endian number of 2 bytes, and then `ciphertext`; the cursor
    /// is behind them.
    pub open spec fn with_ciphertext(self, ciphertext: Seq<u8>) -> PacketView {
        self.moved_to(0).put(be_bytes(ciphertext.len(), 2)).put(ciphertext)
    }
}

/// The ciphertext of `plain` under `exponent` and `modulus`.
///
/// `plain` is read as a big-endian integer in two's complement. The
/// ciphertext is the shortest such bytes of that integer to the power
/// `exponent`, reduced by `modulus`.
pub open spec fn ciphertext_of(plain: Seq<u8>, exponent: int, modulus: int) -> Seq<u8> {
    shortest_signed_be(modular_power(signed_value(plain), exponent, modulus))
}

impl Packet {
    /// Replaces the content of the packet by `encrypted` behind its length.
    pub fn put_ciphertext(&mut self, encrypted: &[u8])
        requires
            old(self).wf(),
            encrypted@.len() <= MAX_CIPHERTEXT_BYTES,
        ensures
            final(self).wf(),
            final(self)@ == old(self)@.with_ciphertext(encrypted@),
    {
        self.pos = 0;
        self.put_be(encrypted.len() as u64, 2);
        self.write_at_cursor(encrypted);
    }

    /// Encrypts what stands before the cursor.
    ///
    /// The bytes from the start of the storage to the cursor are read as a
    /// big-endian integer in two's complement. Its power `exponent`,
    /// reduced by `modulus`, again as such bytes and as few as spell it,
    /// replaces them, behind its length in 2 bytes.
    ///
    /// Fails, and changes nothing, if `exponent` is negative, if `modulus`
    /// is zero, or if the result is longer than `MAX_CIPHERTEXT_BYTES`.
    pub fn rsa_encrypt(&mut self, exponent: &BigInt, modulus: &BigInt) -> (result: Result<
        (),
        PacketError,
    >)
        requires
            old(self).wf(),
        ensures
            final(self).wf(),
            ({
                let before = old(self)@;
                let power = bigint_int(*exponent);
                let divisor = bigint_int(*modulus);
                let ciphertext = ciphertext_of(before.before_cursor(), power, divisor);
                if power < 0 || divisor == 0 || ciphertext.len() > MAX_CIPHERTEXT_BYTES {
                    &&& result == Err::<(), PacketError>(PacketError::InvalidArgument)
                    &&& final(self)@ == before
                } else {
                    &&& result == Ok::<(), PacketError>(())
                    &&& final(self)@ == before.with_ciphertext(ciphertext)
                }
            }),
    {
        if sign_of(exponent) == -1 || sign_of(modulus) == 0 {
            return Err(PacketError::InvalidArgument);
        }
        let plain = slice_subrange(self.bytes.as_slice(), 0, self.pos);
        let base = from_signed_be(plain);
        let power = modpow(&base, exponent, modulus);
        let encrypted = to_signed_be(&power);
        proof {
            lemma_shortest_is_unique(encrypted@);
        }
        if encrypted.len() > MAX_CIPHERTEXT_BYTES {
            return Err(PacketError::InvalidArgument);
        }
        self.put_ciphertext(encrypted.as_slice());
        Ok(())
    }
}

} // verus!
