use mqttv5::errors::Error;
use mqttv5::mqttio::errors::Error as CodecError;
use mqttv5::mqttio::io::Cursor;
use mqttv5::packet::connect::{
    validate_connect_flag, Connect, ConnectProperties, Will, WillProperties,
};
use mqttv5::packet::packet::{FixedHeaderReader, PacketType};

#[test]
fn test_protocol_name_and_version() {
    let mut cur = Cursor::new(
        [
            0x00, 0x04, b'M', b'Q', b'T', b'T', 0x05, 0x00, 0x00, 0x18, 0x00, 0x00, 0x00,
        ]
        .to_vec(),
    );
    let result = Connect::read(&mut cur);
    assert!(result.is_ok(), "{:?}", result.unwrap_err());
}

#[test]
fn test_invalid_protocol_name() {
    let mut cur = Cursor::new([0x00, 0x04, b'M', b'Q', b'T', b'S', 0x05].to_vec());
    let result = Connect::read(&mut cur);
    assert!(std::matches!(
        result.unwrap_err(),
        Error::InvalidProtocolName { .. }
    ));
}

#[test]
fn test_invalid_protocol_version() {
    let mut cur = Cursor::new([0x00, 0x04, b'M', b'Q', b'T', b'T', 0x04].to_vec());
    let result = Connect::read(&mut cur);
    assert!(std::matches!(
        result.unwrap_err(),
        Error::InvalidProtocolVersion { .. }
    ));
}

#[test]
fn test_invalid_connect_flags() {
    let data: [[u8; 8]; 3] = [
        [0x00, 0x04, b'M', b'Q', b'T', b'T', 0x05, 0x01],
        [0x00, 0x04, b'M', b'Q', b'T', b'T', 0x05, 0x1C], // 3.1.2.6
        [0x00, 0x04, b'M', b'Q', b'T', b'T', 0x05, 0x20], // 3.1.2.7
    ];
    for d in data.iter().enumerate() {
        let mut cur = Cursor::new(d.1.to_vec());
        let result = Connect::read(&mut cur);
        if d.0 == 0 {
            assert!(matches!(
                result.unwrap_err(),
                Error::InvalidConnectFlags { .. }
            ));
        } else if d.0 == 1 {
            assert!(matches!(result.unwrap_err(), Error::InvalidWillQos { .. }));
        } else if d.0 == 2 {
            assert!(matches!(
                result.unwrap_err(),
                Error::InvalidWillRetain { .. }
            ));
        }
    }
}

#[test]
fn test_connect_packet() {
    let data = [
        0x10, 0x1B, 0x00, 0x04, b'M', b'Q', b'T', b'T', 0x05, // protocol version
        0xC2, // Username=1, password=1, retain=0, qos=0, will=0, clean start=1, reserved=0
        0x00, 0x18, // Keep alive - 24
        0x00, // properties
        0x00, 0x00, // client id
        0x00, 0x05, b'h', b'e', b'l', b'l', b'o', // username
        0x00, 0x05, b'w', b'o', b'r', b'l', b'd', // username
    ];

    let mut cur = Cursor::new(data.to_vec());

    let header_result = FixedHeaderReader::read(&mut cur);
    assert!(
        header_result.is_ok(),
        "Error reading fixed header {:?}",
        header_result.unwrap_err()
    );
    let hdr = header_result.unwrap();
    let packet_type = PacketType::from_u8(hdr.0 >> 4);
    assert!(packet_type.is_some());
    assert_eq!(PacketType::CONNECT, packet_type.unwrap());
    assert_eq!(hdr.1, 0x1B);

    let result = Connect::read(&mut cur);
    assert!(result.is_ok(), "{:?}", result.unwrap_err());
    let connect = result.unwrap();
    assert_eq!(connect.protocol_name, "MQTT");
    assert_eq!(connect.protocol_version, 0x05);
    assert!(connect.clean_start);
    assert_eq!(connect.keep_alive, 24);
    assert_eq!(connect.client_id, "");
    assert_eq!(connect.user_name, "hello");
    assert_eq!(connect.password, [b'w', b'o', b'r', b'l', b'd']);
    assert!(connect.properties.is_none());

    let written_result = connect.write();
    assert!(
        written_result.is_ok(),
        "Error writing CONNECT packet {:?}",
        written_result.unwrap_err()
    );
    assert_eq!(written_result.unwrap().as_slice(), data);
}

#[test]
fn test_connect_packet_with_props() {
    let data = [
        0x10, 0x15, 0x00, 0x04, 0x4d, 0x51, 0x54, 0x54, // MQTT
        0x05, // protocol version
        0x02, 0x00, 0x18, // Keep alive - 24
        0x08, // properties
        0x21, 0x00, 0x0A, // receive maximum
        0x27, 0x00, 0x00, 0x04, 0x00, // maximum packet size
        0x00, 0x00, // client id
    ];

    let mut cur = Cursor::new(data.to_vec());
    let header_result = FixedHeaderReader::read(&mut cur);
    assert!(
        header_result.is_ok(),
        "Error reading fixed header {:?}",
        header_result.unwrap_err()
    );
    let hdr = header_result.unwrap();
    assert_eq!(hdr.1, 0x15);

    let result = Connect::read(&mut cur);
    assert!(result.is_ok(), "{:?}", result.unwrap_err());
    let connect = result.unwrap();
    assert!(connect.properties.is_some());
    let props = connect.properties.as_ref().unwrap();
    assert_eq!(props.receive_maximum, Some(10));
    assert_eq!(props.maximum_packet_size, Some(1024));

    let written_result = connect.write();
    assert!(
        written_result.is_ok(),
        "Error writing CONNECT packet with properties {:?}",
        written_result.unwrap_err()
    );
    assert_eq!(written_result.unwrap().as_slice(), data);
}

#[test]
fn test_connect_packet_with_will_message() {
    let data = [
        0x10, 0x2A, 0x00, 0x04, 0x4d, 0x51, 0x54, 0x54, // MQTT
        0x05, // protocol version
        0x0E, 0x00, 0x18, // Keep alive - 24
        0x08, // properties
        0x21, 0x00, 0x0A, // receive maximum
        0x27, 0x00, 0x00, 0x04, 0x00, // maximum packet size
        0x00, 0x00, // client id
        0x05, 0x18, 0x00, 0x00, 0x04, 0x00, 0x00, 0x03, 0x61, 0x2F, 0x62, 0x00, 0x08, 0x57,
        0x65, 0x6C, 0x63, 0x6F, 0x6D, 0x65, 0x21,
    ];
    let mut cur = Cursor::new(data.to_vec());
    let header_result = FixedHeaderReader::read(&mut cur);
    assert!(
        header_result.is_ok(),
        "Error reading fixed header {:?}",
        header_result.unwrap_err()
    );
    let hdr = header_result.unwrap();
    assert_eq!(hdr.1, 0x2A);
    let result = Connect::read(&mut cur);
    assert!(result.is_ok(), "{:?}", result.unwrap_err());
    let connect = result.unwrap();
    assert!(connect.will.is_some());
    let will = connect.will.as_ref().unwrap();
    assert_eq!(will.qos, 0x01);
    assert!(!will.retain);
    assert_eq!(will.topic, "a/b");
    assert_eq!(will.payload, "Welcome!".as_bytes());
    assert!(will.properties.is_some());
    let will_props = will.properties.as_ref().unwrap();
    assert_eq!(will_props.will_delay_interval, Some(1024));

    let written_result = connect.write();
    assert!(
        written_result.is_ok(),
        "Error writing CONNECT packet with properties {:?}",
        written_result.unwrap_err()
    );
    assert_eq!(written_result.unwrap().as_slice(), data);
}

fn head(flags: u8) -> Vec<u8> {
    vec![0x00, 0x04, b'M', b'Q', b'T', b'T', 0x05, flags]
}

#[test]
fn protocol_name_that_was_found_is_reported() {
    let mut cur = Cursor::new(vec![0x00, 0x04, b'M', b'Q', b'T', b'S', 0x05]);
    match Connect::read(&mut cur) {
        Err(Error::InvalidProtocolName(found)) => assert_eq!(found, "\u{0}\u{4}MQTS"),
        other => panic!("{:?}", other),
    }
    let mut cur = Cursor::new(vec![0xff, 0xfe, b'M', b'Q', b'T', b'T', 0x05]);
    match Connect::read(&mut cur) {
        Err(Error::InvalidProtocolName(found)) => assert_eq!(found, "malformed content"),
        other => panic!("{:?}", other),
    }
    let mut cur = Cursor::new(vec![0x00, 0x04, b'M', b'Q', b'T']);
    assert!(matches!(
        Connect::read(&mut cur),
        Err(Error::IOError(CodecError::MalformedPacket))
    ));
}

#[test]
fn connect_flags_are_checked_bit_by_bit() {
    assert!(validate_connect_flag(0x00).is_ok());
    assert!(validate_connect_flag(0x02).is_ok());
    assert!(validate_connect_flag(0xC2).is_ok());
    assert!(validate_connect_flag(0x04).is_ok());
    assert!(validate_connect_flag(0x0C).is_ok());
    assert!(validate_connect_flag(0x14).is_ok());
    assert!(validate_connect_flag(0x34).is_ok());
    assert!(validate_connect_flag(0xF6).is_ok());
    assert!(matches!(
        validate_connect_flag(0x01),
        Err(Error::InvalidConnectFlags)
    ));
    assert!(matches!(
        validate_connect_flag(0xFF),
        Err(Error::InvalidConnectFlags)
    ));
    // will flag with a quality of service of 3
    assert!(matches!(
        validate_connect_flag(0x1C),
        Err(Error::InvalidWillQos)
    ));
    // quality of service of 1, 2 and 3 without the will flag
    assert!(matches!(
        validate_connect_flag(0x08),
        Err(Error::InvalidWillQos)
    ));
    assert!(matches!(
        validate_connect_flag(0x10),
        Err(Error::InvalidWillQos)
    ));
    assert!(matches!(
        validate_connect_flag(0x18),
        Err(Error::InvalidWillQos)
    ));
    // will retain without the will flag
    assert!(matches!(
        validate_connect_flag(0x20),
        Err(Error::InvalidWillRetain)
    ));
    // the quality of service is looked at before the retain flag
    assert!(matches!(
        validate_connect_flag(0x28),
        Err(Error::InvalidWillQos)
    ));
    let mut cur = Cursor::new(head(0x18));
    assert!(matches!(Connect::read(&mut cur), Err(Error::InvalidWillQos)));
}

#[test]
fn connect_that_ends_early_is_a_malformed_packet() {
    let whole = vec![
        0x00, 0x04, b'M', b'Q', b'T', b'T', 0x05, 0xC2, 0x00, 0x18, 0x00, 0x00, 0x00, 0x00, 0x05,
        b'h', b'e', b'l', b'l', b'o', 0x00, 0x05, b'w', b'o', b'r', b'l', b'd',
    ];
    for cut in 0..whole.len() {
        let mut cur = Cursor::new(whole[..cut].to_vec());
        assert!(
            matches!(
                Connect::read(&mut cur),
                Err(Error::IOError(CodecError::MalformedPacket))
            ),
            "cut at {}",
            cut
        );
    }
    let mut cur = Cursor::new(whole);
    assert!(Connect::read(&mut cur).is_ok());
}

#[test]
fn connect_passes_on_the_failures_of_its_parts() {
    let mut bytes = head(0x02);
    bytes.extend_from_slice(&[0x00, 0x18, 0x02, 0x7f, 0x00, 0x00, 0x00]);
    assert!(matches!(
        Connect::read(&mut Cursor::new(bytes)),
        Err(Error::InvalidPropertyID(0x7f))
    ));

    let mut bytes = head(0x02);
    bytes.extend_from_slice(&[0x00, 0x18, 0x00, 0x00, 0x01, 0x07]);
    assert!(matches!(
        Connect::read(&mut Cursor::new(bytes)),
        Err(Error::IOError(CodecError::InvalidUTF8String))
    ));

    let mut bytes = head(0x02);
    bytes.extend_from_slice(&[0x00, 0x18, 0x80, 0x80, 0x80, 0x80, 0x01, 0x00, 0x00]);
    assert!(matches!(
        Connect::read(&mut Cursor::new(bytes)),
        Err(Error::IOError(CodecError::InvalidVarUint32Length(268435456)))
    ));

    let mut bytes = head(0x02);
    bytes.extend_from_slice(&[
        0x00, 0x18, 0x06, 0x21, 0x00, 0x01, 0x21, 0x00, 0x02, 0x00, 0x00,
    ]);
    assert!(matches!(
        Connect::read(&mut Cursor::new(bytes)),
        Err(Error::PropertyAlreadyExists("Receive Maximum"))
    ));
}

fn full_connect() -> Connect {
    Connect {
        protocol_name: "MQTT",
        protocol_version: 5,
        clean_start: false,
        keep_alive: 0x1234,
        will: Some(Will {
            qos: 2,
            retain: true,
            properties: Some(WillProperties {
                will_delay_interval: None,
                payload_format_indicator: Some(true),
                message_expiry_interval: None,
                content_type: "text".to_string(),
                response_topic: String::new(),
                correlation_data: Vec::new(),
                user_property: vec![("k".to_string(), "v".to_string())],
            }),
            topic: "will/topic".to_string(),
            payload: vec![1, 2, 3],
        }),
        properties: Some(ConnectProperties {
            session_expiry_interval: Some(60),
            receive_maximum: None,
            maximum_packet_size: None,
            topic_alias_maximum: Some(4),
            request_problem_info: None,
            request_response_info: Some(false),
            user_property: Vec::new(),
            authentication_method: String::new(),
            authentication_data: Vec::new(),
        }),
        client_id: "client-1".to_string(),
        user_name: "user".to_string(),
        password: vec![0x70, 0x77],
    }
}

#[test]
fn connect_with_everything_has_its_exact_wire_form() {
    let connect = full_connect();
    let bytes = connect.write().unwrap();
    let expected: Vec<u8> = vec![
        0x10, 75, // fixed header
        0x00, 0x04, b'M', b'Q', b'T', b'T', 0x05, // protocol
        0xF4, // user name, password, will retain, qos 2, will
        0x12, 0x34, // keep alive
        10, 0x11, 0x00, 0x00, 0x00, 60, 0x22, 0x00, 0x04, 0x19, 0x00, // properties
        0x00, 0x08, b'c', b'l', b'i', b'e', b'n', b't', b'-', b'1', // client id
        16, 0x01, 0x01, 0x03, 0x00, 0x04, b't', b'e', b'x', b't', 0x26, 0x00, 0x01, b'k', 0x00,
        0x01, b'v', // will properties
        0x00, 0x0A, b'w', b'i', b'l', b'l', b'/', b't', b'o', b'p', b'i', b'c', // will topic
        0x00, 0x03, 1, 2, 3, // will payload
        0x00, 0x04, b'u', b's', b'e', b'r', // user name
        0x00, 0x02, 0x70, 0x77, // password
    ];
    assert_eq!(bytes, expected);
    assert_eq!(bytes.len(), 2 + 75);
    assert_eq!(connect.property_length(), Some(10));
    assert_eq!(connect.will_property_length(), Some(16));
}

#[test]
fn connect_reads_back_what_was_written() {
    let connect = full_connect();
    let bytes = connect.write().unwrap();
    let mut cur = Cursor::new(bytes.clone());
    let (byte0, remaining) = FixedHeaderReader::read(&mut cur).unwrap();
    assert_eq!(byte0, 0x10);
    assert_eq!(remaining as usize, bytes.len() - 2);
    let back = Connect::read(&mut cur).unwrap();
    assert_eq!(cur.position(), bytes.len());
    assert_eq!(back.protocol_name, "MQTT");
    assert_eq!(back.protocol_version, 5);
    assert_eq!(back.clean_start, false);
    assert_eq!(back.keep_alive, 0x1234);
    assert_eq!(back.client_id, "client-1");
    assert_eq!(back.user_name, "user");
    assert_eq!(back.password, vec![0x70, 0x77]);
    let props = back.properties.as_ref().unwrap();
    assert_eq!(props.session_expiry_interval, Some(60));
    assert_eq!(props.receive_maximum, None);
    assert_eq!(props.topic_alias_maximum, Some(4));
    assert_eq!(props.request_response_info, Some(false));
    assert_eq!(props.request_problem_info, None);
    assert!(props.user_property.is_empty());
    let will = back.will.as_ref().unwrap();
    assert_eq!(will.qos, 2);
    assert!(will.retain);
    assert_eq!(will.topic, "will/topic");
    assert_eq!(will.payload, vec![1, 2, 3]);
    let will_props = will.properties.as_ref().unwrap();
    assert_eq!(will_props.payload_format_indicator, Some(true));
    assert_eq!(will_props.content_type, "text");
    assert_eq!(will_props.response_topic, "");
    assert_eq!(
        will_props.user_property,
        vec![("k".to_string(), "v".to_string())]
    );
    assert_eq!(back.write().unwrap(), bytes);
}

#[test]
fn connect_without_anything_optional() {
    let connect = Connect {
        protocol_name: "MQTT",
        protocol_version: 5,
        clean_start: true,
        keep_alive: 0,
        will: None,
        properties: None,
        client_id: String::new(),
        user_name: String::new(),
        password: Vec::new(),
    };
    let bytes = connect.write().unwrap();
    assert_eq!(
        bytes,
        vec![0x10, 13, 0x00, 0x04, b'M', b'Q', b'T', b'T', 0x05, 0x02, 0x00, 0x00, 0x00, 0x00, 0x00]
    );
    assert_eq!(connect.property_length(), Some(0));
    assert_eq!(connect.will_property_length(), Some(0));
}

#[test]
fn connect_refuses_to_write_what_has_no_wire_form() {
    let mut connect = full_connect();
    connect.will.as_mut().unwrap().qos = 3;
    assert!(matches!(connect.write(), Err(Error::InvalidWillQos)));

    let mut connect = full_connect();
    connect.client_id = "c".repeat(65536);
    assert!(matches!(
        connect.write(),
        Err(Error::IOError(CodecError::MalformedPacket))
    ));

    let mut connect = full_connect();
    connect.password = vec![0; 65536];
    assert!(matches!(
        connect.write(),
        Err(Error::IOError(CodecError::MalformedPacket))
    ));

    let mut connect = full_connect();
    connect.will.as_mut().unwrap().topic = "t".repeat(70000);
    assert!(matches!(
        connect.write(),
        Err(Error::IOError(CodecError::MalformedPacket))
    ));
}

#[test]
fn connect_with_a_long_remaining_length() {
    let mut connect = full_connect();
    connect.client_id = "c".repeat(65535);
    connect.will = None;
    let bytes = connect.write().unwrap();
    let remaining = 10 + 11 + 2 + 65535 + 6 + 4;
    assert_eq!(bytes.len(), 1 + 3 + remaining);
    assert_eq!(&bytes[..4], &[0x10, 0xA0, 0x80, 0x04]);
    let mut cur = Cursor::new(bytes);
    assert_eq!(
        FixedHeaderReader::read(&mut cur).unwrap(),
        (0x10, remaining as u32)
    );
    let back = Connect::read(&mut cur).unwrap();
    assert_eq!(back.client_id.len(), 65535);
}

#[test]
fn will_is_read_with_the_flags_of_the_packet() {
    let mut cur = Cursor::new(vec![0x00, 0x00, 0x01, b't', 0x00, 0x02, 0xaa, 0xbb, 0xcc]);
    let will = Will::read(&mut cur, 0x2C).unwrap();
    assert_eq!(will.qos, 1);
    assert!(will.retain);
    assert!(will.properties.is_none());
    assert_eq!(will.topic, "t");
    assert_eq!(will.payload, vec![0xaa, 0xbb]);
    assert_eq!(cur.position(), 8);
    assert_eq!(will.len(), Some(1 + 3 + 4));
}

#[test]
fn user_name_without_content_is_read_and_not_written() {
    let mut bytes = head(0x82);
    bytes.extend_from_slice(&[0x00, 0x00, 0x00, 0x00, 0x00, 0x00, 0x00]);
    let connect = Connect::read(&mut Cursor::new(bytes)).unwrap();
    assert_eq!(connect.user_name, "");
    let written = connect.write().unwrap();
    assert_eq!(written[1], 13);
    assert_eq!(written[9], 0x02);
}

#[test]
fn defaults_are_empty() {
    let connect: Connect = Default::default();
    assert_eq!(connect.protocol_name, "");
    assert_eq!(connect.protocol_version, 0);
    assert!(connect.will.is_none());
    assert!(connect.properties.is_none());
    let will: Will = Default::default();
    assert_eq!(will.qos, 0);
    assert!(will.topic.is_empty());
    let props: WillProperties = Default::default();
    assert_eq!(props.len(), Some(0));
}

#[test]
fn connect_refuses_a_remaining_length_past_the_largest() {
    let mut connect = full_connect();
    let value = "v".repeat(65535);
    let pairs: Vec<(String, String)> = (0..4096).map(|_| (String::new(), value.clone())).collect();
    connect.properties.as_mut().unwrap().user_property = pairs;
    assert_eq!(connect.property_length(), None);
    assert!(matches!(connect.write(), Err(Error::InvalidRemaningLength)));
    // one pair less, and the packet is written
    connect.properties.as_mut().unwrap().user_property.pop();
    connect.will = None;
    connect.user_name = String::new();
    connect.password = Vec::new();
    connect.client_id = String::new();
    let len = connect.property_length().unwrap();
    assert_eq!(len, 10 + 4095 * 65540);
    let written = connect.write().unwrap();
    assert_eq!(written.len(), 1 + 4 + 10 + 4 + len as usize + 2);
}

#[test]
fn unknown_property_of_a_connect_packet_is_a_packet_failure() {
    // 00 04 M Q T T 05 02 00 18 02 7F 00 00 00
    let bytes = vec![
        0x00, 0x04, 0x4D, 0x51, 0x54, 0x54, 0x05, 0x02, 0x00, 0x18, 0x02, 0x7F, 0x00, 0x00, 0x00,
    ];
    let result = Connect::read(&mut Cursor::new(bytes));
    assert_eq!(result.unwrap_err(), Error::InvalidPropertyID(0x7F));
}

#[test]
fn unknown_property_of_a_will_is_a_packet_failure() {
    let mut bytes = head(0x06);
    bytes.extend_from_slice(&[0x00, 0x18, 0x00, 0x00, 0x00, 0x03, 0x21, 0x00, 0x01]);
    let result = Connect::read(&mut Cursor::new(bytes));
    assert_eq!(result.unwrap_err(), Error::InvalidPropertyID(0x21));
    let mut cur = Cursor::new(vec![0x04, 0x01, 0x01, 0x01, 0x00]);
    assert_eq!(
        Will::read(&mut cur, 0x04).unwrap_err(),
        Error::PropertyAlreadyExists("Payload format indicator")
    );
}
