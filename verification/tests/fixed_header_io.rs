use mqtt_wire::channel::{ByteReader, ByteWriter};
use mqtt_wire::error::Error;
use mqtt_wire::packet::fixed_header::{FixedHeader, PacketType};

#[test]
fn test_fixed_header_read_success() {
    // Publish packet (type=3) with flags=0b1101, remaining_length=127
    let mut reader = ByteReader::new(vec![0b00111101, 0x7F]);

    let header = FixedHeader::read::<()>(&mut reader).unwrap();
    assert!(matches!(header.type_, PacketType::Publish));
    assert_eq!(header.flags, 0b1101);
    assert_eq!(header.remaining_length, 127);
}

#[test]
fn test_fixed_header_read_eof() {
    let mut reader = ByteReader::new(vec![]);

    let result = FixedHeader::read::<()>(&mut reader);
    assert!(matches!(result, Err(Error::MalformedPacketError)));
}

#[test]
fn test_fixed_header_read_bad_remaining_length() {
    // Control byte followed by a remaining length that never terminates.
    let mut reader = ByteReader::new(vec![0b00111101, 0x80, 0x80, 0x80, 0x80, 0x01]);

    let result = FixedHeader::read::<()>(&mut reader);
    assert!(matches!(result, Err(Error::MalformedPacketError)));
}

// Tests for FixedHeader::write()
#[test]
fn test_fixed_header_write_success() {
    let header = FixedHeader {
        type_: PacketType::Publish,
        flags: 0b1101,
        remaining_length: 127,
    };

    let mut writer = ByteWriter::new(2);
    header.write(&mut writer).unwrap();
    assert_eq!(writer.bytes().as_slice(), &[0b00111101, 0x7F]);
}

#[test]
fn test_fixed_header_write_buffer_too_small() {
    let header = FixedHeader {
        type_: PacketType::Connect,
        flags: 0,
        remaining_length: 128, // Needs 3 bytes total
    };

    let mut writer = ByteWriter::new(2); // Too small

    let result = header.write(&mut writer);
    assert!(matches!(result, Err(Error::NetworkError(_))));
}

#[test]
fn test_fixed_header_write_masks_flag_upper_bits() {
    // Only the low nibble of the flags reaches the wire.
    let header = FixedHeader {
        type_: PacketType::Subscribe,
        flags: 0b11110010,
        remaining_length: 0,
    };

    let mut writer = ByteWriter::new(2);
    header.write(&mut writer).unwrap();
    assert_eq!(writer.bytes().as_slice(), &[0b10000010, 0x00]);
}

#[test]
fn test_fixed_header_roundtrip() {
    let header = FixedHeader {
        type_: PacketType::PubRel,
        flags: 0b0010,
        remaining_length: 16383,
    };

    let mut writer = ByteWriter::new(3);
    header.write(&mut writer).unwrap();

    let mut reader = ByteReader::new(writer.bytes().clone());
    let back = FixedHeader::read::<()>(&mut reader).unwrap();
    assert!(matches!(back.type_, PacketType::PubRel));
    assert_eq!(back.flags, 0b0010);
    assert_eq!(back.remaining_length, 16383);
}
