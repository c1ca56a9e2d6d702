use num_bigint::BigInt;
use packet_buffer::packet::bytes::Packet;
use packet_buffer::packet::cipher::decrypt_block;
use packet_buffer::packet::cipher::encrypt_block;
use packet_buffer::packet::error::PacketError;

const KEY: [i32; 4] = [0x0123_4567, -0x7654_3211, 0x0bad_cafe, -1];

#[test]
fn block_cipher_changes_and_restores_a_block() {
    let (c0, c1) = encrypt_block(0, 0, &[0, 0, 0, 0]);
    assert_ne!((c0, c1), (0, 0));
    assert_eq!(decrypt_block(c0, c1, &[0, 0, 0, 0]), (0, 0));
}

#[test]
fn block_cipher_inverts_for_many_blocks_and_keys() {
    let words = [0i32, 1, -1, i32::MAX, i32::MIN, 0x1234_5678, -0x1234_5678];
    let keys = [[0i32, 0, 0, 0], KEY, [i32::MIN, i32::MAX, -1, 1]];
    for key in keys {
        for v0 in words {
            for v1 in words {
                let (c0, c1) = encrypt_block(v0, v1, &key);
                assert_eq!(decrypt_block(c0, c1, &key), (v0, v1));
                let (d0, d1) = decrypt_block(v0, v1, &key);
                assert_eq!(encrypt_block(d0, d1, &key), (v0, v1));
            }
        }
    }
}

#[test]
fn block_cipher_depends_on_the_key() {
    let first = encrypt_block(1, 2, &[1, 2, 3, 4]);
    let second = encrypt_block(1, 2, &[1, 2, 3, 5]);
    assert_ne!(first, second);
}

#[test]
fn buffer_cipher_round_trips_and_keeps_the_remainder() {
    let plain: Vec<u8> = (0u8..21).collect();
    let mut packet = Packet::from(plain.clone());
    packet.skip(3);
    assert_eq!(packet.tiny_key_encrypt(&KEY), Ok(()));
    assert_eq!(packet.get_pos(), 16);
    packet.set_pos(0).unwrap();
    let cipher = packet.to_vec();
    assert_eq!(cipher.len(), 21);
    assert_ne!(cipher[..8], plain[..8]);
    assert_ne!(cipher[8..16], plain[8..16]);
    assert_eq!(cipher[16..], plain[16..]);
    assert_eq!(packet.tiny_key_decrypt(&KEY), Ok(()));
    assert_eq!(packet.get_pos(), 16);
    packet.set_pos(0).unwrap();
    assert_eq!(packet.to_vec(), plain);
}

#[test]
fn buffer_cipher_agrees_with_the_block_cipher() {
    let mut packet = Packet::new(8);
    packet.p4s(0x0102_0304);
    packet.p4s(-2);
    packet.tiny_key_encrypt(&KEY).unwrap();
    packet.set_pos(0).unwrap();
    let (c0, c1) = encrypt_block(0x0102_0304, -2, &KEY);
    assert_eq!(packet.g4s().unwrap(), c0);
    assert_eq!(packet.g4s().unwrap(), c1);
}

#[test]
fn range_cipher_touches_only_whole_blocks_of_the_range() {
    let plain: Vec<u8> = (100u8..130).collect();
    let mut packet = Packet::from(plain.clone());
    packet.skip(5);
    assert_eq!(packet.tiny_key_encrypt_range(&KEY, 3, 22), Ok(()));
    assert_eq!(packet.get_pos(), 5);
    packet.set_pos(0).unwrap();
    let cipher = packet.to_vec();
    assert_eq!(cipher[..3], plain[..3]);
    assert_ne!(cipher[3..11], plain[3..11]);
    assert_ne!(cipher[11..19], plain[11..19]);
    assert_eq!(cipher[19..], plain[19..]);
    assert_eq!(packet.tiny_key_decrypt_range(&KEY, 3, 22), Ok(()));
    assert_eq!(packet.to_vec(), plain);
}

#[test]
fn range_cipher_of_less_than_a_block_changes_nothing() {
    let plain = vec![9u8, 8, 7, 6, 5, 4, 3, 2, 1];
    let mut packet = Packet::from(plain.clone());
    assert_eq!(packet.tiny_key_encrypt_range(&KEY, 1, 8), Ok(()));
    assert_eq!(packet.tiny_key_decrypt_range(&KEY, 4, 4), Ok(()));
    assert_eq!(packet.to_vec(), plain);
}

#[test]
fn range_cipher_rejects_ranges_outside_what_was_written() {
    let plain = vec![0u8; 16];
    let mut packet = Packet::from(plain.clone());
    packet.skip(2);
    assert_eq!(packet.tiny_key_encrypt_range(&KEY, 0, 17), Err(PacketError::UnexpectedEof));
    assert_eq!(packet.tiny_key_encrypt_range(&KEY, 9, 8), Err(PacketError::UnexpectedEof));
    assert_eq!(packet.tiny_key_decrypt_range(&KEY, 0, 17), Err(PacketError::UnexpectedEof));
    assert_eq!(packet.tiny_key_decrypt_range(&KEY, 9, 8), Err(PacketError::UnexpectedEof));
    assert_eq!(packet.get_pos(), 2);
    packet.set_pos(0).unwrap();
    assert_eq!(packet.to_vec(), plain);
}

#[test]
fn modular_power_replaces_the_content_behind_its_length() {
    let mut packet = Packet::new(8);
    packet.p1(2);
    assert_eq!(packet.rsa_encrypt(&BigInt::from(3), &BigInt::from(5)), Ok(()));
    assert_eq!(packet.get_pos(), 3);
    packet.set_pos(0).unwrap();
    assert_eq!(packet.to_vec(), vec![0, 1, 3]);
}

#[test]
fn modular_power_of_a_longer_number() {
    let mut packet = Packet::new(2);
    packet.p2(0x0100);
    let modulus = BigInt::from(1_000_003);
    assert_eq!(packet.rsa_encrypt(&BigInt::from(65537), &modulus), Ok(()));
    let expected = BigInt::from(256).modpow(&BigInt::from(65537), &modulus).to_signed_bytes_be();
    assert_eq!(packet.get_pos(), 2 + expected.len());
    packet.set_pos(0).unwrap();
    assert_eq!(packet.g2().unwrap() as usize, expected.len());
    assert_eq!(packet.to_vec(), expected);
}

#[test]
fn modular_power_reads_the_content_as_signed() {
    let mut packet = Packet::new(1);
    packet.p1(0xff);
    assert_eq!(packet.rsa_encrypt(&BigInt::from(1), &BigInt::from(7)), Ok(()));
    packet.set_pos(0).unwrap();
    assert_eq!(packet.to_vec(), vec![0, 1, 6]);
}

#[test]
fn modular_power_grows_the_packet_for_a_long_result() {
    let mut packet = Packet::new(1);
    packet.p1(3);
    let modulus = BigInt::from(1u8) << 200;
    assert_eq!(packet.rsa_encrypt(&BigInt::from(100), &modulus), Ok(()));
    let expected = BigInt::from(3).pow(100).to_signed_bytes_be();
    assert_eq!(packet.write_extent(), 2 + expected.len());
    packet.set_pos(2).unwrap();
    assert_eq!(packet.to_vec(), expected);
}

#[test]
fn modular_power_rejects_what_the_arithmetic_cannot_take() {
    let mut packet = Packet::new(4);
    packet.p2(0x1234);
    assert_eq!(
        packet.rsa_encrypt(&BigInt::from(3), &BigInt::from(0)),
        Err(PacketError::InvalidArgument)
    );
    assert_eq!(
        packet.rsa_encrypt(&BigInt::from(-1), &BigInt::from(5)),
        Err(PacketError::InvalidArgument)
    );
    assert_eq!(packet.get_pos(), 2);
    packet.set_pos(0).unwrap();
    assert_eq!(packet.to_vec(), vec![0x12, 0x34]);
}

#[test]
fn ciphertext_is_stored_behind_its_length() {
    let mut packet = Packet::from(vec![9u8, 9, 9, 9, 9, 9]);
    packet.skip(4);
    packet.put_ciphertext(&[1, 2, 3]);
    assert_eq!(packet.get_pos(), 5);
    assert_eq!(packet.write_extent(), 6);
    packet.set_pos(0).unwrap();
    assert_eq!(packet.to_vec(), vec![0, 3, 1, 2, 3, 9]);
}

#[test]
fn modular_power_takes_the_sign_of_the_modulus() {
    let mut packet = Packet::new(1);
    packet.p1(2);
    assert_eq!(packet.rsa_encrypt(&BigInt::from(3), &BigInt::from(-5)), Ok(()));
    packet.set_pos(0).unwrap();
    assert_eq!(packet.to_vec(), vec![0, 1, 0xfe]);

    let mut negative = Packet::new(1);
    negative.p1s(-2);
    assert_eq!(negative.rsa_encrypt(&BigInt::from(3), &BigInt::from(5)), Ok(()));
    negative.set_pos(0).unwrap();
    assert_eq!(negative.to_vec(), vec![0, 1, 2]);

    let mut both = Packet::new(1);
    both.p1s(-2);
    assert_eq!(both.rsa_encrypt(&BigInt::from(3), &BigInt::from(-5)), Ok(()));
    both.set_pos(0).unwrap();
    assert_eq!(both.to_vec(), vec![0, 1, 0xfd]);
}

#[test]
fn modular_power_writes_the_shortest_signed_bytes() {
    let mut packet = Packet::new(2);
    packet.p2(200);
    assert_eq!(packet.rsa_encrypt(&BigInt::from(1), &BigInt::from(1000)), Ok(()));
    packet.set_pos(0).unwrap();
    assert_eq!(packet.to_vec(), vec![0, 2, 0, 200]);

    let mut small = Packet::new(4);
    small.p4(100);
    assert_eq!(small.rsa_encrypt(&BigInt::from(1), &BigInt::from(1000)), Ok(()));
    assert_eq!(small.get_pos(), 3);
    small.set_pos(0).unwrap();
    assert_eq!(small.to_vec(), vec![0, 1, 100, 100]);

    let mut low = Packet::new(1);
    low.p1(1);
    assert_eq!(low.rsa_encrypt(&BigInt::from(1), &BigInt::from(-129)), Ok(()));
    low.set_pos(0).unwrap();
    assert_eq!(low.to_vec(), vec![0, 1, 0x80]);
}

#[test]
fn modular_power_of_zero_and_to_the_power_zero() {
    let mut zero = Packet::new(1);
    zero.p1(5);
    assert_eq!(zero.rsa_encrypt(&BigInt::from(1), &BigInt::from(5)), Ok(()));
    zero.set_pos(0).unwrap();
    assert_eq!(zero.to_vec(), vec![0, 1, 0]);

    let mut one = Packet::new(1);
    one.p1(7);
    assert_eq!(one.rsa_encrypt(&BigInt::from(0), &BigInt::from(10)), Ok(()));
    one.set_pos(0).unwrap();
    assert_eq!(one.to_vec(), vec![0, 1, 1]);

    let mut nothing = Packet::new(0);
    assert_eq!(nothing.rsa_encrypt(&BigInt::from(0), &BigInt::from(1)), Ok(()));
    nothing.set_pos(0).unwrap();
    assert_eq!(nothing.to_vec(), vec![0, 1, 0]);

    let mut empty = Packet::new(0);
    assert_eq!(empty.rsa_encrypt(&BigInt::from(0), &BigInt::from(9)), Ok(()));
    empty.set_pos(0).unwrap();
    assert_eq!(empty.to_vec(), vec![0, 1, 1]);
}
