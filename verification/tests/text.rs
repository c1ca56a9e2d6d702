use packet_buffer::packet::bytes::Packet;
use packet_buffer::packet::error::PacketError;

#[test]
fn string_is_written_with_one_terminator() {
    let mut packet = Packet::new(0);
    packet.pjstr("hi");
    packet.pjstr("");
    packet.set_pos(0).unwrap();
    assert_eq!(packet.to_vec(), vec![b'h', b'i', 0, 0]);
    assert_eq!(packet.gjstr().unwrap(), "hi");
    assert_eq!(packet.get_pos(), 3);
    assert_eq!(packet.gjstr().unwrap(), "");
    assert_eq!(packet.get_pos(), 4);
}

#[test]
fn string_with_leading_terminator() {
    let mut packet = Packet::new(0);
    packet.gjstr2("ab");
    packet.set_pos(0).unwrap();
    assert_eq!(packet.to_vec(), vec![0, b'a', b'b', 0]);
    assert_eq!(packet.gjstr().unwrap(), "");
    assert_eq!(packet.gjstr().unwrap(), "ab");
}

#[test]
fn string_without_terminator_is_a_decode_error() {
    let mut packet = Packet::from(vec![b'a', b'b', b'c']);
    packet.skip(1);
    assert_eq!(packet.gjstr(), Err(PacketError::Decode));
    assert_eq!(packet.get_pos(), 1);
    let mut empty = Packet::new(4);
    assert_eq!(empty.gjstr(), Err(PacketError::Decode));
}

#[test]
fn terminator_beyond_the_written_extent_does_not_count() {
    let mut packet = Packet::new(8);
    packet.p1(b'x');
    packet.set_pos(0).unwrap();
    assert_eq!(packet.gjstr(), Err(PacketError::Decode));
    assert_eq!(packet.get_pos(), 0);
}

#[test]
fn high_bytes_are_read_as_windows_1252() {
    let mut packet = Packet::from(vec![0xe9u8, 0x80, b'!', 0, b'z']);
    assert_eq!(packet.gjstr().unwrap(), "\u{e9}\u{20ac}!");
    assert_eq!(packet.get_pos(), 4);
}

#[test]
fn malformed_text_is_a_decode_error_and_keeps_the_cursor() {
    let mut packet = Packet::from(vec![0xefu8, 0xbb, 0xbf, 0xff, 0]);
    assert_eq!(packet.gjstr(), Err(PacketError::Decode));
    assert_eq!(packet.get_pos(), 0);
}

#[test]
fn accepted_text_moves_past_the_terminator() {
    let mut packet = Packet::from(vec![b'o', b'k', 0, 7]);
    assert_eq!(packet.accept_text(2, String::from("ok"), false), Ok(String::from("ok")));
    assert_eq!(packet.get_pos(), 3);
    packet.set_pos(0).unwrap();
    assert_eq!(packet.accept_text(2, String::from("ok"), true), Err(PacketError::Decode));
    assert_eq!(packet.get_pos(), 0);
}
