use metamesh::node::decode_packet_hex;
use metamesh::node::NodeError;
use metamesh::{MetaMeshPacket, PacketError, PacketFlags, PacketHeader, PacketType, MAGIC_HEADER, TLV, TLV_DATA, TLV_SIG};

fn sample_packet() -> MetaMeshPacket {
    let value_a = vec![1u8, 2, 3, 4, 5];
    let value_b = vec![0xAAu8; 300];
    let payload = vec![
        TLV { type_id: TLV_SIG, length: value_a.len() as u16, value: value_a },
        TLV { type_id: TLV_DATA, length: value_b.len() as u16, value: value_b },
    ];
    let payload_len = (3 + 5 + 3 + 300) as u32;
    MetaMeshPacket {
        magic: MAGIC_HEADER,
        header: PacketHeader {
            packet_type: PacketType::Message,
            version: 1,
            ttl: 7,
            flags: PacketFlags::from_bits_retain(PacketFlags::ENCRYPTED | PacketFlags::PRIORITY),
            from_seed: [0x11; 16],
            to_seed: [0x22; 16],
            nonce: [1, 2, 3, 4, 5, 6, 7, 8],
            payload_len,
        },
        payload,
    }
}

#[test]
fn encode_then_decode_gives_same_packet() {
    let p = sample_packet();
    let bytes = p.encode();
    assert_eq!(bytes.len(), 51 + 8 + 303);
    let back = MetaMeshPacket::decode(&bytes).unwrap();
    assert_eq!(back, p);
}

#[test]
fn encoding_is_big_endian_and_in_field_order() {
    let p = sample_packet();
    let bytes = p.encode();
    assert_eq!(&bytes[0..2], b"MM");
    assert_eq!(bytes[2], 0x01);
    assert_eq!(bytes[3], 1);
    assert_eq!(bytes[4], 7);
    assert_eq!(&bytes[5..7], &[0x00, 0x11]);
    assert_eq!(&bytes[7..23], &[0x11; 16]);
    assert_eq!(&bytes[23..39], &[0x22; 16]);
    assert_eq!(&bytes[39..47], &[1, 2, 3, 4, 5, 6, 7, 8]);
    assert_eq!(&bytes[47..51], &[0, 0, 0x01, 0x37]);
    assert_eq!(&bytes[51..54], &[TLV_SIG, 0, 5]);
    assert_eq!(&bytes[59..62], &[TLV_DATA, 0x01, 0x2C]);
}

#[test]
fn packet_type_bytes_round_trip() {
    let all = [
        PacketType::Message, PacketType::KeyRequest, PacketType::KeyResponse, PacketType::Ping,
        PacketType::EmergencyBroadcast, PacketType::RouteDiscovery, PacketType::RouteResponse,
        PacketType::Ack, PacketType::Reserved1, PacketType::Reserved2, PacketType::Reserved3,
        PacketType::Reserved4, PacketType::Reserved5, PacketType::Reserved6, PacketType::Reserved7,
    ];
    for t in all {
        assert_eq!(PacketType::from_byte(t.to_byte()), Some(t));
    }
    assert_eq!(PacketType::Reserved6.to_byte(), 0x10);
    assert_eq!(PacketType::from_byte(0x0E), None);
    assert_eq!(PacketType::from_byte(0x00), None);
}

#[test]
fn flags_are_independent_bits() {
    let f = PacketFlags::from_bits_retain(PacketFlags::BROADCAST).with(PacketFlags::SIGNED);
    assert!(f.contains(PacketFlags::BROADCAST));
    assert!(f.contains(PacketFlags::SIGNED));
    assert!(!f.contains(PacketFlags::ENCRYPTED));
    assert_eq!(f.bits(), 0b110);
    assert_eq!(PacketFlags::empty().bits(), 0);
}

#[test]
fn decode_rejects_short_input() {
    let bytes = sample_packet().encode();
    assert_eq!(MetaMeshPacket::decode(&bytes[..50]), Err(PacketError::Truncated));
    assert_eq!(MetaMeshPacket::decode(&[]), Err(PacketError::Truncated));
}

#[test]
fn decode_rejects_wrong_magic() {
    let mut bytes = sample_packet().encode();
    bytes[1] = b'X';
    assert_eq!(MetaMeshPacket::decode(&bytes), Err(PacketError::BadMagic));
}

#[test]
fn decode_rejects_unknown_type() {
    let mut bytes = sample_packet().encode();
    bytes[2] = 0x0F;
    assert_eq!(MetaMeshPacket::decode(&bytes), Err(PacketError::UnknownPacketType));
}

#[test]
fn decode_rejects_record_past_end() {
    let bytes = sample_packet().encode();
    let cut = &bytes[..bytes.len() - 1];
    assert_eq!(MetaMeshPacket::decode(cut), Err(PacketError::TlvOverflow));
}

#[test]
fn decode_rejects_partial_record_header() {
    let bytes = sample_packet().encode();
    let cut = &bytes[..51 + 8 + 2];
    assert_eq!(MetaMeshPacket::decode(cut), Err(PacketError::TruncatedTlv));
}

#[test]
fn decode_checks_payload_length() {
    let mut bytes = sample_packet().encode();
    bytes[50] = 0x36;
    assert_eq!(MetaMeshPacket::decode(&bytes), Err(PacketError::PayloadLengthMismatch));
}

#[test]
fn decode_hex_text() {
    let p = sample_packet();
    let text = hex::encode(p.encode());
    assert_eq!(decode_packet_hex(&text).unwrap(), p);
    assert_eq!(decode_packet_hex(&text.to_uppercase()).unwrap(), p);
    assert_eq!(decode_packet_hex(""), Err(NodeError::InvalidArgument));
    assert_eq!(decode_packet_hex("abc"), Err(NodeError::InvalidHex));
    assert_eq!(decode_packet_hex("zz"), Err(NodeError::InvalidHex));
    assert_eq!(decode_packet_hex("4d4d"), Err(NodeError::Malformed(PacketError::Truncated)));
}
