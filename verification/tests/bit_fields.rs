use packet_buffer::packet::bitbuf::PacketBit;
use packet_buffer::packet::bits::BitReader;
use packet_buffer::packet::bits::BitWriter;
use packet_buffer::packet::bytes::Packet;
use packet_buffer::packet::error::PacketError;

fn low_bits(value: u64, count: usize) -> u64 {
    value & ((1u64 << count) - 1)
}

#[test]
fn bit_fields_are_packed_most_significant_bit_first() {
    let mut packet = Packet::new(0);
    let mut writer = BitWriter::new(&mut packet);
    writer.write_bits(0b101, 3).unwrap();
    writer.write_bits(0b1, 1).unwrap();
    writer.write_bits(0b0110, 4).unwrap();
    writer.write_bits(0b11, 2).unwrap();
    assert_eq!(writer.get_bits_used(), 2);
    writer.finish();
    assert_eq!(packet.get_pos(), 2);
    assert_eq!(packet.write_extent(), 2);
    packet.set_pos(0).unwrap();
    assert_eq!(packet.to_vec(), vec![0b1011_0110, 0b1100_0000]);
}

#[test]
fn bit_writer_keeps_the_bits_around_a_field() {
    let mut packet = Packet::from(vec![0xffu8, 0xff, 0xff]);
    let mut writer = BitWriter::new_at_position(&mut packet, 1);
    writer.write_bits(0, 3).unwrap();
    writer.align();
    assert_eq!(writer.get_bits_used(), 0);
    writer.finish();
    assert_eq!(packet.get_pos(), 2);
    packet.set_pos(0).unwrap();
    assert_eq!(packet.to_vec(), vec![0xff, 0b0001_1111, 0xff]);
}

#[test]
fn bit_writer_masks_the_value_to_the_field() {
    let mut packet = Packet::new(1);
    let mut writer = BitWriter::new(&mut packet);
    writer.write_bits(0xffff_ffff, 4).unwrap();
    writer.write_bits(0, 4).unwrap();
    writer.finish();
    packet.set_pos(0).unwrap();
    assert_eq!(packet.to_vec(), vec![0xf0]);
}

#[test]
fn bit_round_trip_for_every_width_and_offset() {
    let patterns = [0u64, 1, 0x5555_5555, 0xaaaa_aaaa, 0xffff_ffff, 0x1234_5678, 0x8000_0001];
    for offset in 0..8usize {
        for count in 1..=32usize {
            for pattern in patterns {
                let value = low_bits(pattern, count) as u32;
                let mut packet = Packet::new(2);
                let mut writer = BitWriter::new(&mut packet);
                if offset > 0 {
                    writer.write_bits(0xff, offset).unwrap();
                }
                writer.write_bits(value, count).unwrap();
                writer.write_bits(0x3, 2).unwrap();
                writer.finish();
                packet.set_pos(0).unwrap();
                let mut reader = BitReader::new(packet.get_slice());
                reader.skip_bits(offset).unwrap();
                assert_eq!(reader.read_bits(count).unwrap(), value as usize);
                assert_eq!(reader.read_bits(2).unwrap(), 3);
                assert_eq!(reader.get_bit_position(), offset + count + 2);
            }
        }
    }
}

#[test]
fn largest_field_round_trips() {
    let mut packet = Packet::new(0);
    let mut writer = BitWriter::new(&mut packet);
    writer.write_bits(1, 1).unwrap();
    writer.write_bits(u32::MAX, 32).unwrap();
    writer.write_bits(0x8000_0000, 32).unwrap();
    writer.finish();
    assert_eq!(packet.write_extent(), 9);
    packet.set_pos(0).unwrap();
    let mut reader = BitReader::new(packet.get_slice());
    assert_eq!(reader.read_bits(1).unwrap(), 1);
    assert_eq!(reader.read_bits(32).unwrap(), 0xffff_ffff);
    assert_eq!(reader.read_bits(32).unwrap(), 0x8000_0000);
}

#[test]
fn bit_counts_outside_one_to_thirty_two_are_rejected() {
    let mut packet = Packet::new(4);
    let mut writer = BitWriter::new(&mut packet);
    assert_eq!(writer.write_bits(1, 0), Err(PacketError::InvalidArgument));
    assert_eq!(writer.write_bits(1, 33), Err(PacketError::InvalidArgument));
    assert_eq!(writer.get_bits_used(), 0);
    writer.finish();
    assert_eq!(packet.get_pos(), 0);
    assert_eq!(packet.write_extent(), 0);

    let data = [0xffu8; 8];
    let mut reader = BitReader::new(&data);
    assert_eq!(reader.read_bits(0), Err(PacketError::InvalidArgument));
    assert_eq!(reader.read_bits(33), Err(PacketError::InvalidArgument));
    assert_eq!(reader.get_bit_position(), 0);

    let mut buffer = PacketBit::new();
    assert_eq!(buffer.write_bits(1, 0), Err(PacketError::InvalidArgument));
    assert_eq!(buffer.write_bits(1, 33), Err(PacketError::InvalidArgument));
    assert_eq!(buffer.pbits(0, 1), Err(PacketError::InvalidArgument));
    assert_eq!(buffer.pbits(33, 1), Err(PacketError::InvalidArgument));
    assert_eq!(buffer.read_bits(0), Err(PacketError::InvalidArgument));
    assert_eq!(buffer.read_bits(33), Err(PacketError::InvalidArgument));
    assert_eq!(buffer.bits_written(), 0);
    assert_eq!(buffer.bits_read(), 0);
}

#[test]
fn reading_past_the_last_bit_fails_and_keeps_the_cursor() {
    let data = [0b1010_1010u8, 0b0101_0101];
    let mut reader = BitReader::new(&data);
    assert_eq!(reader.read_bits(12).unwrap(), 0b1010_1010_0101);
    assert_eq!(reader.read_bits(5), Err(PacketError::UnexpectedEof));
    assert_eq!(reader.get_bit_position(), 12);
    assert_eq!(reader.get_bits_used(), 4);
    assert!(reader.has_bits_available(4));
    assert!(!reader.has_bits_available(5));
    assert_eq!(reader.skip_bits(5), Err(PacketError::UnexpectedEof));
    assert_eq!(reader.get_bit_position(), 12);
    assert_eq!(reader.read_bits(4).unwrap(), 0b0101);
    assert_eq!(reader.read_bits(1), Err(PacketError::UnexpectedEof));
    assert_eq!(reader.get_bit_position(), 16);
    assert_eq!(reader.get_buffer(), &data);
}

#[test]
fn reader_can_start_at_a_byte() {
    let data = [0x12u8, 0x34, 0x56];
    let mut reader = BitReader::new_at_position(&data, 1);
    assert_eq!(reader.get_bit_position(), 8);
    assert_eq!(reader.read_bits(16).unwrap(), 0x3456);
    let mut beyond = BitReader::new_at_position(&data, 4);
    assert!(!beyond.has_bits_available(1));
    assert_eq!(beyond.read_bits(1), Err(PacketError::UnexpectedEof));
    assert_eq!(beyond.skip_bits(1), Err(PacketError::UnexpectedEof));
}

#[test]
fn skip_bits_crosses_bytes() {
    let data = [0u8, 0, 0b0000_0111, 0xff];
    let mut reader = BitReader::new(&data);
    reader.skip_bits(21).unwrap();
    assert_eq!(reader.get_bit_position(), 21);
    assert_eq!(reader.get_bits_used(), 5);
    assert_eq!(reader.read_bits(3).unwrap(), 0b111);
    reader.skip_bits(8).unwrap();
    assert_eq!(reader.get_bit_position(), 32);
    assert_eq!(reader.skip_bits(0), Ok(()));
}

#[test]
fn standalone_buffer_round_trips_the_sequence() {
    let mut buffer = PacketBit::new();
    buffer.write_bits(2, 3).unwrap();
    buffer.write_bits(100, 8).unwrap();
    buffer.write_bits(0, 1).unwrap();
    buffer.write_bits(2000, 16).unwrap();
    assert_eq!(buffer.bits_written(), 28);
    assert_eq!(buffer.as_bytes().len(), 4);
    assert_eq!(buffer.read_bits(3).unwrap(), 2);
    assert_eq!(buffer.read_bits(8).unwrap(), 100);
    assert_eq!(buffer.read_bits(1).unwrap(), 0);
    assert_eq!(buffer.read_bits(16).unwrap(), 2000);
    assert_eq!(buffer.bits_read(), 28);
    assert_eq!(buffer.read_bits(1), Err(PacketError::UnexpectedEof));
    assert_eq!(buffer.bits_read(), 28);
}

#[test]
fn standalone_buffer_grows_by_doubling() {
    let mut buffer = PacketBit::new();
    for i in 0..32u32 {
        buffer.write_bits(i, 8).unwrap();
    }
    assert_eq!(buffer.as_bytes().len(), 32);
    buffer.write_bits(1, 1).unwrap();
    assert_eq!(buffer.as_bytes().len(), 33);
    assert_eq!(buffer.as_bytes()[32], 0x80);
    for i in 0..32usize {
        assert_eq!(buffer.read_bits(8).unwrap(), i);
    }
    assert_eq!(buffer.read_bits(1).unwrap(), 1);
    for _ in 0..100 {
        buffer.write_bits(0xabcd, 16).unwrap();
    }
    assert_eq!(buffer.bits_written(), 32 * 8 + 1 + 1600);
    for _ in 0..100 {
        assert_eq!(buffer.read_bits(16).unwrap(), 0xabcd);
    }
}

#[test]
fn standalone_buffer_aligns_to_the_next_byte() {
    let mut buffer = PacketBit::new();
    buffer.align();
    assert_eq!(buffer.bits_written(), 0);
    buffer.write_bits(0b11, 2).unwrap();
    buffer.align();
    assert_eq!(buffer.bits_written(), 8);
    buffer.write_bits(0xff, 8).unwrap();
    buffer.align();
    assert_eq!(buffer.bits_written(), 16);
    assert_eq!(buffer.as_bytes(), &[0b1100_0000, 0xff]);
}

#[test]
fn standalone_buffer_writes_truth_values_as_bytes() {
    let mut buffer = PacketBit::new();
    buffer.pbool(true).unwrap();
    buffer.pbool(false).unwrap();
    buffer.pbits(4, 0xabc).unwrap();
    assert_eq!(buffer.bits_written(), 20);
    assert_eq!(buffer.as_bytes(), &[1, 0, 0xc0]);
    assert_eq!(buffer.read_bits(8).unwrap(), 1);
    assert_eq!(buffer.read_bits(8).unwrap(), 0);
    assert_eq!(buffer.read_bits(4).unwrap(), 0xc);
}
