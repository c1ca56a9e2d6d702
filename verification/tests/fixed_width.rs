use packet_buffer::packet::bytes::Packet;
use packet_buffer::packet::error::PacketError;

#[test]
fn new_packet_is_zero_filled_and_empty() {
    let packet = Packet::new(5);
    assert_eq!(packet.capacity(), 5);
    assert_eq!(packet.len(), 5);
    assert_eq!(packet.get_pos(), 0);
    assert_eq!(packet.write_extent(), 0);
    assert_eq!(packet.available_count(), 0);
    assert_eq!(packet.available(), Some(0));
    assert!(packet.is_empty());
    assert_eq!(packet.peek(), None);
    assert_eq!(packet.to_vec(), Vec::<u8>::new());
}

#[test]
fn empty_packet_has_no_storage() {
    let mut packet = Packet::empty();
    assert_eq!(packet.capacity(), 0);
    packet.p1(9);
    assert_eq!(packet.capacity(), 1);
    packet.p1(8);
    assert_eq!(packet.capacity(), 2);
    packet.p1(7);
    assert_eq!(packet.capacity(), 4);
    packet.set_pos(0).unwrap();
    assert_eq!(packet.to_vec(), vec![9, 8, 7]);
}

#[test]
fn unsigned_fields_are_big_endian() {
    let mut packet = Packet::new(0);
    packet.p1(0xab);
    packet.p2(0x1234);
    packet.p3(0x00ab_cdef);
    packet.p4(0xdead_beef);
    packet.p8(0x0102_0304_0506_0708);
    packet.set_pos(0).unwrap();
    assert_eq!(
        packet.to_vec(),
        vec![
            0xab, 0x12, 0x34, 0xab, 0xcd, 0xef, 0xde, 0xad, 0xbe, 0xef, 1, 2, 3, 4, 5, 6, 7, 8
        ]
    );
    assert_eq!(packet.g1().unwrap(), 0xab);
    assert_eq!(packet.g2().unwrap(), 0x1234);
    assert_eq!(packet.g3().unwrap(), 0x00ab_cdef);
    assert_eq!(packet.g4().unwrap(), 0xdead_beef);
    assert_eq!(packet.g8().unwrap(), 0x0102_0304_0506_0708);
    assert_eq!(packet.available_count(), 0);
}

#[test]
fn three_byte_write_keeps_low_bytes() {
    let mut packet = Packet::new(3);
    packet.p3(0x1234_5678);
    packet.set_pos(0).unwrap();
    assert_eq!(packet.to_vec(), vec![0x34, 0x56, 0x78]);
    assert_eq!(packet.g3().unwrap(), 0x0034_5678);
}

#[test]
fn signed_fields_are_twos_complement() {
    let mut packet = Packet::new(0);
    packet.p1s(-1);
    packet.p2s(-2);
    packet.p4s(-3);
    packet.p8s(-4);
    packet.set_pos(0).unwrap();
    assert_eq!(
        packet.to_vec(),
        vec![
            0xff, 0xff, 0xfe, 0xff, 0xff, 0xff, 0xfd, 0xff, 0xff, 0xff, 0xff, 0xff, 0xff, 0xff,
            0xfc
        ]
    );
    assert_eq!(packet.g1s().unwrap(), -1);
    assert_eq!(packet.g2s().unwrap(), -2);
    assert_eq!(packet.g4s().unwrap(), -3);
    assert_eq!(packet.g8s().unwrap(), -4);
}

#[test]
fn unsigned_boundary_values_round_trip() {
    let mut packet = Packet::new(4);
    for value in [0u8, 1, 0x7f, 0x80, u8::MAX] {
        packet.p1(value);
    }
    for value in [0u16, 1, 0x7fff, 0x8000, u16::MAX] {
        packet.p2(value);
    }
    for value in [0u32, 1, 0x7fff_ffff, 0x8000_0000, u32::MAX] {
        packet.p4(value);
    }
    for value in [0u64, 1, 0x7fff_ffff_ffff_ffff, 0x8000_0000_0000_0000, u64::MAX] {
        packet.p8(value);
    }
    for value in [0u32, 1, 0x7f_ffff, 0x80_0000, 0xff_ffff] {
        packet.p3(value);
    }
    packet.set_pos(0).unwrap();
    for value in [0u8, 1, 0x7f, 0x80, u8::MAX] {
        assert_eq!(packet.g1().unwrap(), value);
    }
    for value in [0u16, 1, 0x7fff, 0x8000, u16::MAX] {
        assert_eq!(packet.g2().unwrap(), value);
    }
    for value in [0u32, 1, 0x7fff_ffff, 0x8000_0000, u32::MAX] {
        assert_eq!(packet.g4().unwrap(), value);
    }
    for value in [0u64, 1, 0x7fff_ffff_ffff_ffff, 0x8000_0000_0000_0000, u64::MAX] {
        assert_eq!(packet.g8().unwrap(), value);
    }
    for value in [0usize, 1, 0x7f_ffff, 0x80_0000, 0xff_ffff] {
        assert_eq!(packet.g3().unwrap(), value);
    }
    assert!(packet.is_empty());
}

#[test]
fn signed_boundary_values_round_trip() {
    let mut packet = Packet::new(1);
    for value in [0i8, 1, -1, i8::MAX, i8::MIN] {
        packet.p1s(value);
    }
    for value in [0i16, 1, -1, i16::MAX, i16::MIN] {
        packet.p2s(value);
    }
    for value in [0i32, 1, -1, i32::MAX, i32::MIN] {
        packet.p4s(value);
    }
    for value in [0i64, 1, -1, i64::MAX, i64::MIN] {
        packet.p8s(value);
    }
    packet.set_pos(0).unwrap();
    for value in [0i8, 1, -1, i8::MAX, i8::MIN] {
        assert_eq!(packet.g1s().unwrap(), value);
    }
    for value in [0i16, 1, -1, i16::MAX, i16::MIN] {
        assert_eq!(packet.g2s().unwrap(), value);
    }
    for value in [0i32, 1, -1, i32::MAX, i32::MIN] {
        assert_eq!(packet.g4s().unwrap(), value);
    }
    for value in [0i64, 1, -1, i64::MAX, i64::MIN] {
        assert_eq!(packet.g8s().unwrap(), value);
    }
    assert!(packet.is_empty());
}

#[test]
fn generic_fields_of_every_width_round_trip() {
    let mut packet = Packet::new(0);
    for width in 0..=8usize {
        packet.put_be(0x0807_0605_0403_0201, width);
    }
    packet.set_pos(0).unwrap();
    assert_eq!(packet.take_be(0).unwrap(), 0);
    assert_eq!(packet.take_be(1).unwrap(), 0x01);
    assert_eq!(packet.take_be(2).unwrap(), 0x0201);
    assert_eq!(packet.take_be(3).unwrap(), 0x03_0201);
    assert_eq!(packet.take_be(4).unwrap(), 0x0403_0201);
    assert_eq!(packet.take_be(5).unwrap(), 0x05_0403_0201);
    assert_eq!(packet.take_be(6).unwrap(), 0x0605_0403_0201);
    assert_eq!(packet.take_be(7).unwrap(), 0x07_0605_0403_0201);
    assert_eq!(packet.take_be(8).unwrap(), 0x0807_0605_0403_0201);
    assert_eq!(packet.take_be(1), Err(PacketError::UnexpectedEof));
}

#[test]
fn reads_past_the_written_extent_fail_and_keep_the_cursor() {
    let mut packet = Packet::new(16);
    packet.p2(0x0102);
    packet.p1(0x03);
    packet.set_pos(1).unwrap();
    assert_eq!(packet.available_count(), 2);
    assert_eq!(packet.g3(), Err(PacketError::UnexpectedEof));
    assert_eq!(packet.g4(), Err(PacketError::UnexpectedEof));
    assert_eq!(packet.g4s(), Err(PacketError::UnexpectedEof));
    assert_eq!(packet.g8(), Err(PacketError::UnexpectedEof));
    assert_eq!(packet.g8s(), Err(PacketError::UnexpectedEof));
    assert_eq!(packet.get_pos(), 1);
    assert_eq!(packet.g2().unwrap(), 0x0203);
    assert_eq!(packet.g1(), Err(PacketError::UnexpectedEof));
    assert_eq!(packet.g1s(), Err(PacketError::UnexpectedEof));
    assert_eq!(packet.g2(), Err(PacketError::UnexpectedEof));
    assert_eq!(packet.g2s(), Err(PacketError::UnexpectedEof));
    assert_eq!(packet.get_pos(), 3);
}

#[test]
fn growth_doubles_and_keeps_what_was_written() {
    let mut packet = Packet::new(4);
    packet.p4(0x0102_0304);
    assert_eq!(packet.capacity(), 4);
    packet.p1(5);
    assert_eq!(packet.capacity(), 8);
    packet.p8(0x0607_0809_0a0b_0c0d);
    assert_eq!(packet.capacity(), 16);
    packet.set_pos(0).unwrap();
    assert_eq!(packet.to_vec(), vec![1, 2, 3, 4, 5, 6, 7, 8, 9, 10, 11, 12, 13]);
    assert_eq!(packet.get_inner_mut().clone(), vec![1, 2, 3, 4, 5, 6, 7, 8, 9, 10, 11, 12, 13, 0, 0, 0]);
}

#[test]
fn growth_takes_what_is_needed_when_doubling_is_too_little() {
    let mut packet = Packet::new(2);
    packet.p8(1);
    assert_eq!(packet.capacity(), 8);
    packet.p1(1);
    assert_eq!(packet.capacity(), 16);
    let mut other = Packet::new(3);
    other.grow(2);
    assert_eq!(other.capacity(), 3);
    other.grow(5);
    assert_eq!(other.capacity(), 6);
    other.grow(100);
    assert_eq!(other.capacity(), 100);
    assert_eq!(other.write_extent(), 0);
}

#[test]
fn set_pos_rejects_positions_beyond_the_written_extent() {
    let mut packet = Packet::new(10);
    packet.p4(7);
    assert_eq!(packet.set_pos(5), Err(PacketError::InvalidArgument));
    assert_eq!(packet.get_pos(), 4);
    assert_eq!(packet.set_pos(4), Ok(()));
    assert_eq!(packet.set_pos(2), Ok(()));
    assert_eq!(packet.get_pos(), 2);
    assert_eq!(packet.set_pos(10), Err(PacketError::InvalidArgument));
    assert_eq!(packet.get_pos(), 2);
}

#[test]
fn peek_skip_and_available_follow_the_cursor() {
    let mut packet = Packet::from(vec![10u8, 20, 30, 40, 50]);
    assert_eq!(packet.peek(), Some(10));
    assert_eq!(packet.get_pos(), 0);
    assert!(packet.has_available(5));
    assert!(!packet.has_available(6));
    packet.skip(2);
    assert_eq!(packet.peek(), Some(30));
    assert_eq!(packet.available(), Some(3));
    assert_eq!(packet.slice_remaining(), &[30, 40, 50]);
    assert_eq!(packet.get_slice(), &[30, 40, 50]);
    assert_eq!(packet.get(1..3), Some(&[40u8, 50][..]));
    assert_eq!(packet.get(1..4), None);
    assert_eq!(packet.get(2..2), Some(&[][..]));
    packet.skip(100);
    assert_eq!(packet.get_pos(), 5);
    assert_eq!(packet.peek(), None);
    assert!(packet.is_empty());
    assert!(packet.has_available(0));
}

#[test]
fn overwriting_keeps_the_written_extent() {
    let mut packet = Packet::from_slice(&[1, 2, 3, 4, 5, 6]);
    packet.set_pos(1).unwrap();
    packet.p2(0xaabb);
    assert_eq!(packet.get_pos(), 3);
    assert_eq!(packet.write_extent(), 6);
    packet.set_pos(0).unwrap();
    assert_eq!(packet.to_vec(), vec![1, 0xaa, 0xbb, 4, 5, 6]);
}

#[test]
fn clear_forgets_what_was_written() {
    let mut packet = Packet::new(4);
    packet.p2(0x0102);
    packet.clear();
    assert_eq!(packet.get_pos(), 0);
    assert_eq!(packet.write_extent(), 0);
    assert_eq!(packet.capacity(), 4);
    assert_eq!(packet.g1(), Err(PacketError::UnexpectedEof));
}

#[test]
fn bulk_reads_and_writes_are_clamped_to_what_is_available() {
    let mut packet = Packet::from(vec![1u8, 2, 3, 4, 5]);
    assert_eq!(packet.gdata(2), vec![1, 2]);
    assert_eq!(packet.get_pos(), 2);
    packet.pdata(&[9, 8, 7, 6, 5, 4]);
    assert_eq!(packet.get_pos(), 5);
    assert_eq!(packet.capacity(), 5);
    packet.set_pos(0).unwrap();
    assert_eq!(packet.to_vec(), vec![1, 2, 9, 8, 7]);
    packet.set_pos(3).unwrap();
    assert_eq!(packet.gdata(10), vec![8, 7]);
    assert_eq!(packet.get_pos(), 5);
    assert_eq!(packet.gdata(1), Vec::<u8>::new());
}

#[test]
fn append_extends_storage_and_written_extent() {
    let mut packet = Packet::new(3);
    packet.p1(1);
    packet.append_slice(&[7, 8]);
    assert_eq!(packet.get_pos(), 1);
    assert_eq!(packet.write_extent(), 5);
    assert_eq!(packet.capacity(), 5);
    assert_eq!(packet.to_vec(), vec![0, 0, 7, 8]);
}

#[test]
fn compact_moves_the_rest_to_the_front() {
    let mut packet = Packet::from(vec![1u8, 2, 3, 4, 5]);
    packet.skip(2);
    packet.compact();
    assert_eq!(packet.get_pos(), 0);
    assert_eq!(packet.write_extent(), 3);
    assert_eq!(packet.to_vec(), vec![3, 4, 5]);
    assert_eq!(packet.get_inner_mut().clone(), vec![3, 4, 5, 4, 5]);
    packet.compact();
    assert_eq!(packet.to_vec(), vec![3, 4, 5]);
    packet.skip(3);
    packet.compact();
    assert_eq!(packet.write_extent(), 0);
    assert_eq!(packet.get_pos(), 0);
}

#[test]
fn set_len_grows_and_pulls_the_cursor_back() {
    let mut packet = Packet::from(vec![1u8, 2, 3, 4]);
    packet.skip(3);
    packet.set_len(2);
    assert_eq!(packet.get_pos(), 2);
    assert_eq!(packet.write_extent(), 2);
    packet.set_len(6);
    assert_eq!(packet.write_extent(), 6);
    assert_eq!(packet.capacity(), 8);
    assert_eq!(packet.to_vec(), vec![3, 4, 0, 0]);
}

#[test]
fn remaining_bytes_can_be_changed_in_place() {
    let mut packet = Packet::from(vec![1u8, 2, 3, 4, 5]);
    packet.skip(1);
    packet.set_len(4);
    {
        let part = packet.as_mut_slice_all();
        assert_eq!(part, &mut [2u8, 3, 4][..]);
        part[0] = 20;
        part[2] = 40;
    }
    assert_eq!(packet.get_pos(), 1);
    assert_eq!(packet.write_extent(), 4);
    assert_eq!(packet.get_inner_mut().clone(), vec![1, 20, 3, 40, 5]);
}

#[test]
fn storage_can_be_reached_and_changed() {
    let mut packet = Packet::new(2);
    packet.p1(7);
    packet.get_inner_mut().push(9);
    assert_eq!(packet.capacity(), 3);
    assert_eq!(packet.write_extent(), 1);
    assert_eq!(packet.get_inner_mut().clone(), vec![7, 0, 9]);
}
