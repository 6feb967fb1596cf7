use mqtt_wire::packet::fixed_header::PacketType;

#[test]
fn test_packet_type_to_bits() {
    assert_eq!(PacketType::Reserved.to_bits(), 0);
    assert_eq!(PacketType::Connect.to_bits(), 1);
    assert_eq!(PacketType::ConnAck.to_bits(), 2);
    assert_eq!(PacketType::Publish.to_bits(), 3);
    assert_eq!(PacketType::PubAck.to_bits(), 4);
    assert_eq!(PacketType::PubRec.to_bits(), 5);
    assert_eq!(PacketType::PubRel.to_bits(), 6);
    assert_eq!(PacketType::PubComp.to_bits(), 7);
    assert_eq!(PacketType::Subscribe.to_bits(), 8);
    assert_eq!(PacketType::SubAck.to_bits(), 9);
    assert_eq!(PacketType::Unsubscribe.to_bits(), 10);
    assert_eq!(PacketType::UnsubAck.to_bits(), 11);
    assert_eq!(PacketType::PingReq.to_bits(), 12);
    assert_eq!(PacketType::PingResp.to_bits(), 13);
    assert_eq!(PacketType::Disconnect.to_bits(), 14);
    assert_eq!(PacketType::Auth.to_bits(), 15);
}

#[test]
fn test_packet_type_from_bits() {
    assert!(matches!(PacketType::from_bits(0), PacketType::Reserved));
    assert!(matches!(PacketType::from_bits(1), PacketType::Connect));
    assert!(matches!(PacketType::from_bits(2), PacketType::ConnAck));
    assert!(matches!(PacketType::from_bits(3), PacketType::Publish));
    assert!(matches!(PacketType::from_bits(4), PacketType::PubAck));
    assert!(matches!(PacketType::from_bits(5), PacketType::PubRec));
    assert!(matches!(PacketType::from_bits(6), PacketType::PubRel));
    assert!(matches!(PacketType::from_bits(7), PacketType::PubComp));
    assert!(matches!(PacketType::from_bits(8), PacketType::Subscribe));
    assert!(matches!(PacketType::from_bits(9), PacketType::SubAck));
    assert!(matches!(PacketType::from_bits(10), PacketType::Unsubscribe));
    assert!(matches!(PacketType::from_bits(11), PacketType::UnsubAck));
    assert!(matches!(PacketType::from_bits(12), PacketType::PingReq));
    assert!(matches!(PacketType::from_bits(13), PacketType::PingResp));
    assert!(matches!(PacketType::from_bits(14), PacketType::Disconnect));
    assert!(matches!(PacketType::from_bits(15), PacketType::Auth));
}

#[test]
fn test_packet_type_from_bits_ignores_upper_bits() {
    // Upper bits should be ignored
    assert!(matches!(
        PacketType::from_bits(0b11110001),
        PacketType::Connect
    ));
    assert!(matches!(
        PacketType::from_bits(0b10100010),
        PacketType::ConnAck
    ));
    assert!(matches!(PacketType::from_bits(0b01011111), PacketType::Auth));
}

#[test]
fn test_packet_type_round_trip_all_values() {
    for bits in 0u8..16u8 {
        let t = PacketType::from_bits(bits);
        assert_eq!(t.to_bits(), bits);
    }
}
