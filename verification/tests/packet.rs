use mqttv5::errors::Error;
use mqttv5::mqttio::errors::Error as CodecError;
use mqttv5::mqttio::io::Cursor;
use mqttv5::packet::packet::{FixedHeaderReader, PacketType, ReasonCode};

#[test]
fn test_fixed_header_read() {
    let mut cur: Cursor = Cursor::new(vec![0x10, 0x1B, 0x00, 0x04]);
    let result = FixedHeaderReader::read(&mut cur);
    assert!(
        result.is_ok(),
        "Error reading fixed header {:?}",
        result.unwrap_err()
    );
    let hdr = result.unwrap();
    assert_eq!(hdr.0, 0x10);
    assert_eq!(hdr.1, 0x1B);
}

#[test]
fn fixed_header_leaves_what_follows_unread() {
    let mut cur = Cursor::new(vec![0x10, 0x1B, 0x00, 0x04]);
    assert_eq!(FixedHeaderReader::read(&mut cur).unwrap(), (0x10, 0x1B));
    assert_eq!(cur.position(), 2);
    assert_eq!(cur.get_ref(), &vec![0x10, 0x1B, 0x00, 0x04]);
}

#[test]
fn fixed_header_with_a_long_length() {
    let mut cur = Cursor::new(vec![0x30, 0xff, 0xff, 0xff, 0x7f, 0x00]);
    assert_eq!(FixedHeaderReader::read(&mut cur).unwrap(), (0x30, 268435455));
    assert_eq!(cur.position(), 5);
}

#[test]
fn fixed_header_failures() {
    assert!(matches!(
        FixedHeaderReader::read(&mut Cursor::new(Vec::new())),
        Err(Error::IOError(CodecError::MalformedPacket))
    ));
    assert!(matches!(
        FixedHeaderReader::read(&mut Cursor::new(vec![0x10])),
        Err(Error::IOError(CodecError::MalformedPacket))
    ));
    assert!(matches!(
        FixedHeaderReader::read(&mut Cursor::new(vec![0x10, 0x80, 0x80, 0x80, 0x80, 0x01])),
        Err(Error::IOError(CodecError::InvalidVarUint32Length(268435456)))
    ));
}

#[test]
fn packet_types_have_their_numbers() {
    assert_eq!(PacketType::RESERVED.to_u8(), 0);
    assert_eq!(PacketType::CONNECT.to_u8(), 1);
    assert_eq!(PacketType::PUBLISH.to_u8(), 3);
    assert_eq!(PacketType::AUTH.to_u8(), 15);
    for code in 0..16u8 {
        assert_eq!(PacketType::from_u8(code).unwrap().to_u8(), code);
    }
    for code in 16..=255u8 {
        assert!(PacketType::from_u8(code).is_none());
    }
    assert_eq!(PacketType::RESERVED.as_str(), "RESERVED for future use");
    assert_eq!(PacketType::UNSUBACK.as_str(), "UNSUBACK");
}

#[test]
fn reason_codes_have_their_numbers() {
    assert_eq!(ReasonCode::Success.to_u8(), 0x00);
    assert_eq!(ReasonCode::NoMatchingSubscribers.to_u8(), 0x10);
    assert_eq!(ReasonCode::MalformedPacket.to_u8(), 0x81);
    assert_eq!(ReasonCode::TopicFilterInvalid.to_u8(), 0x8F);
    assert_eq!(ReasonCode::WildcardSubscriptionsNotSupported.to_u8(), 0xA2);
    assert_eq!(ReasonCode::Success.as_str(), "Success");
    assert_eq!(ReasonCode::ServerMoved.as_str(), "Server moved");
    assert_eq!(
        ReasonCode::SubscriptionIdsNotSupported.as_str(),
        "Subscription Identifiers not supported"
    );
}

#[test]
fn a_failed_fixed_header_takes_at_most_five_bytes() {
    let mut cur = Cursor::new(vec![0x10, 0x80, 0x80, 0x80, 0x80, 0x01, 0x02]);
    assert!(FixedHeaderReader::read(&mut cur).is_err());
    assert_eq!(cur.position(), 5);
    let mut cur = Cursor::new(vec![0x10, 0x80]);
    assert!(FixedHeaderReader::read(&mut cur).is_err());
    assert_eq!(cur.position(), 2);
    let mut cur = Cursor::new(Vec::new());
    assert!(FixedHeaderReader::read(&mut cur).is_err());
    assert_eq!(cur.position(), 0);
}
