use mqttv5::mqttio::block::{
    block_len, find_slot, read_block, read_value, value_size, write_block, write_value,
    PropertyBlock, PropertyValue,
};
use mqttv5::errors::Error as PacketError;
use mqttv5::mqttio::errors::Error;
use mqttv5::mqttio::io::{Cursor, Writer};
use mqttv5::mqttio::properties::{
    PropertyID, PropertyKind, PropertyReader, PropertySize, PropertyWriter,
};
use mqttv5::packet::connect::{ConnectProperties, WillProperties};

#[test]
fn test_property_size() {
    assert_eq!(PropertySize::from_bool(&Some(true)), 2);
    assert_eq!(PropertySize::from_u8(&Some(8)), 2);
    assert_eq!(PropertySize::from_u16(&Some(128)), 3);
    assert_eq!(PropertySize::from_u32(&Some(1024)), 5);
    assert_eq!(PropertySize::from_utf8_string(&"hello"), 8);
    assert_eq!(PropertySize::from_binary_data(&vec![0x01, 0x02]), 5);
    assert_eq!(PropertySize::from_varuint32(&Some(127)), 2);
    assert_eq!(PropertySize::from_varuint32_array(&[127, 2097151]), 6);
    assert_eq!(
        PropertySize::from_utf8_string_pair(&[
            ("hello".to_string(), "world".to_string()),
            ("hello".to_string(), "world".to_string())
        ]),
        28
    );
}

fn reader_bool(v: bool, data: &[u8]) {
    let mut cur = Cursor::new(data.to_vec());
    let result = PropertyReader::to_bool(&mut cur);
    assert!(result.is_ok());
    let data = result.unwrap();
    assert!(data.is_some());
    assert_eq!(data.unwrap(), v);
}

fn reader_u8(v: u8, data: &[u8]) {
    let mut cur = Cursor::new(data.to_vec());
    let result = PropertyReader::to_u8(&mut cur);
    assert!(result.is_ok());
    let data = result.unwrap();
    assert!(data.is_some());
    assert_eq!(data.unwrap(), v);
}

fn reader_u16(v: u16, data: &[u8]) {
    let mut cur = Cursor::new(data.to_vec());
    let result = PropertyReader::to_u16(&mut cur);
    assert!(result.is_ok());
    let data = result.unwrap();
    assert!(data.is_some());
    assert_eq!(data.unwrap(), v);
}

fn reader_u32(v: u32, data: &[u8]) {
    let mut cur = Cursor::new(data.to_vec());
    let result = PropertyReader::to_u32(&mut cur);
    assert!(result.is_ok());
    let data = result.unwrap();
    assert!(data.is_some());
    assert_eq!(data.unwrap(), v);
}

fn reader_varuint32(v: u32, data: &[u8]) {
    let mut cur = Cursor::new(data.to_vec());
    let result = PropertyReader::to_varuint32(&mut cur);
    assert!(result.is_ok());
    let data = result.unwrap();
    assert!(data.is_some());
    assert_eq!(data.unwrap(), v);
}

fn reader_utf8_string(v: String, data: &[u8]) {
    let mut cur = Cursor::new(data.to_vec());
    let result = PropertyReader::to_utf8_string(&mut cur);
    assert!(result.is_ok());
    let data = result.unwrap();
    assert!(!data.is_empty());
    assert_eq!(data, v);
}

fn reader_binary_data(v: Vec<u8>, data: &[u8]) {
    let mut cur = Cursor::new(data.to_vec());
    let result = PropertyReader::to_binary_data(&mut cur);
    assert!(result.is_ok());
    let data = result.unwrap();
    assert!(!data.is_empty());
    assert_eq!(data, v);
}

#[test]
fn test_property_reader() {
    reader_bool(true, [0x01].as_ref());
    reader_u8(0x80, [0x80].as_ref());
    reader_u16(128, u16::to_be_bytes(128).as_ref());
    reader_u32(8192, u32::to_be_bytes(8192).as_ref());
    reader_varuint32(16384, [0x80, 0x80, 0x01].as_ref());
    reader_utf8_string(
        "hello".to_string(),
        [0x00, 0x05, b'h', b'e', b'l', b'l', b'o'].as_ref(),
    );
    reader_binary_data(vec![0x01, 0x02], [0x00, 0x02, 0x01, 0x02].as_ref());
    {
        let mut cur = Cursor::new(vec![
            0x00, 0x05, b'h', b'e', b'l', b'l', b'o', 0x00, 0x05, b'w', b'o', b'r', b'l', b'd',
        ]);
        let result = PropertyReader::read_utf8_pair(&mut cur);
        assert!(result.is_ok());
        let data = result.unwrap();
        assert_eq!(data.0, "hello");
        assert_eq!(data.1, "world");
    }
}

fn concat_u8(first: &[u8], second: &[u8]) -> Vec<u8> {
    [first, second].concat()
}

fn writer_bool(v: &Option<bool>, id: PropertyID, data: &[u8]) {
    let mut cur = Cursor::new(Vec::new());
    let result = PropertyWriter::from_bool(&mut cur, id, v);
    assert!(result.is_ok());
    assert_eq!(cur.get_ref(), data);
}

fn writer_u8(v: &Option<u8>, id: PropertyID, data: &[u8]) {
    let mut cur = Cursor::new(Vec::new());
    let result = PropertyWriter::from_u8(&mut cur, id, v);
    assert!(result.is_ok());
    assert_eq!(cur.get_ref(), data);
}

fn writer_u16(v: &Option<u16>, id: PropertyID, data: &[u8]) {
    let mut cur = Cursor::new(Vec::new());
    let result = PropertyWriter::from_u16(&mut cur, id, v);
    assert!(result.is_ok());
    assert_eq!(cur.get_ref(), data);
}

fn writer_u32(v: &Option<u32>, id: PropertyID, data: &[u8]) {
    let mut cur = Cursor::new(Vec::new());
    let result = PropertyWriter::from_u32(&mut cur, id, v);
    assert!(result.is_ok());
    assert_eq!(cur.get_ref(), data);
}

fn writer_varuint32(v: &Option<u32>, id: PropertyID, data: &[u8]) {
    let mut cur = Cursor::new(Vec::new());
    let result = PropertyWriter::from_varuint32(&mut cur, id, v);
    assert!(result.is_ok());
    assert_eq!(cur.get_ref(), data);
}

fn writer_utf8_string(v: String, id: PropertyID, data: &[u8]) {
    let mut cur = Cursor::new(Vec::new());
    let result = PropertyWriter::from_utf8_string(&mut cur, id, &v);
    assert!(result.is_ok());
    assert_eq!(cur.get_ref(), data);
}

fn writer_binary_data(v: Vec<u8>, id: PropertyID, data: &[u8]) {
    let mut cur = Cursor::new(Vec::new());
    let result = PropertyWriter::from_binary_data(&mut cur, id, &v);
    assert!(result.is_ok());
    assert_eq!(cur.get_ref(), data);
}

#[test]
fn test_property_writer() {
    writer_bool(&Some(true), PropertyID::ContentType, [0x03, 0x01].as_ref());
    writer_u8(&Some(0x80), PropertyID::ContentType, [0x03, 0x80].as_ref());
    writer_u16(
        &Some(128),
        PropertyID::ContentType,
        concat_u8([0x03].as_ref(), u16::to_be_bytes(128).as_ref()).as_slice(),
    );
    writer_u32(
        &Some(8192),
        PropertyID::ContentType,
        concat_u8([0x03].as_ref(), u32::to_be_bytes(8192).as_ref()).as_slice(),
    );
    writer_varuint32(
        &Some(16384),
        PropertyID::ContentType,
        [0x03, 0x80, 0x80, 0x01].as_ref(),
    );
    writer_utf8_string(
        "hello".to_string(),
        PropertyID::ContentType,
        [0x03, 0x00, 0x05, b'h', b'e', b'l', b'l', b'o'].as_ref(),
    );
    writer_binary_data(
        vec![0x01, 0x02],
        PropertyID::ContentType,
        [0x03, 0x00, 0x02, 0x01, 0x02].as_ref(),
    );
    {
        let mut cur = Cursor::new(Vec::new());
        let data = [
            0x03, 0x00, 0x05, b'h', b'e', b'l', b'l', b'o', 0x00, 0x05, b'w', b'o', b'r', b'l',
            b'd',
        ];
        let result = PropertyWriter::from_utf8_pair(
            &mut cur,
            PropertyID::ContentType,
            &[("hello".to_string(), "world".to_string())],
        );
        assert!(result.is_ok());
        assert_eq!(cur.get_ref(), &data);
    }
}

#[test]
fn property_sizes_of_absent_values() {
    assert_eq!(PropertySize::from_bool(&None), 0);
    assert_eq!(PropertySize::from_u8(&None), 0);
    assert_eq!(PropertySize::from_u16(&None), 0);
    assert_eq!(PropertySize::from_u32(&None), 0);
    assert_eq!(PropertySize::from_varuint32(&None), 0);
    assert_eq!(PropertySize::from_utf8_string(""), 0);
    assert_eq!(PropertySize::from_binary_data(&Vec::new()), 0);
    assert_eq!(PropertySize::from_varuint32_array(&[]), 0);
    assert_eq!(PropertySize::from_utf8_string_pair(&[]), 0);
    assert_eq!(PropertySize::from_varuint32(&Some(268435455)), 5);
    assert_eq!(
        PropertySize::from_utf8_string_pair(&[(String::new(), String::new())]),
        4
    );
}

#[test]
fn property_writers_write_nothing_for_absent_values() {
    let mut cur = Cursor::new(Vec::new());
    assert_eq!(
        PropertyWriter::from_bool(&mut cur, PropertyID::RetainAvailable, &None),
        Ok(())
    );
    assert_eq!(
        PropertyWriter::from_u8(&mut cur, PropertyID::MaximumQoS, &None),
        Ok(())
    );
    assert_eq!(
        PropertyWriter::from_u16(&mut cur, PropertyID::TopicAlias, &None),
        Ok(())
    );
    assert_eq!(
        PropertyWriter::from_u32(&mut cur, PropertyID::WillDelayInterval, &None),
        Ok(())
    );
    assert_eq!(
        PropertyWriter::from_varuint32(&mut cur, PropertyID::SubscriptionIdentifier, &None),
        Ok(())
    );
    assert_eq!(
        PropertyWriter::from_utf8_string(&mut cur, PropertyID::ReasonString, &String::new()),
        Ok(())
    );
    assert_eq!(
        PropertyWriter::from_binary_data(&mut cur, PropertyID::CorrelationData, &Vec::new()),
        Ok(())
    );
    assert_eq!(
        PropertyWriter::from_utf8_pair(&mut cur, PropertyID::UserProperty, &[]),
        Ok(())
    );
    assert!(cur.get_ref().is_empty());
}

#[test]
fn property_writer_refuses_what_does_not_fit() {
    let mut cur = Cursor::new(Vec::new());
    assert_eq!(
        PropertyWriter::from_varuint32(
            &mut cur,
            PropertyID::SubscriptionIdentifier,
            &Some(268435456)
        ),
        Err(Error::InvalidVarUint32(268435456))
    );
    let mut cur = Cursor::new(Vec::new());
    assert_eq!(
        PropertyWriter::from_utf8_string(&mut cur, PropertyID::ReasonString, &"a".repeat(65536)),
        Err(Error::MalformedPacket)
    );
}

#[test]
fn property_identifiers_have_their_numbers() {
    assert_eq!(PropertyID::ContentType.to_u32(), 0x03);
    assert_eq!(PropertyID::SessionExpiryInterval.to_u32(), 0x11);
    assert_eq!(PropertyID::UserProperty.to_u32(), 0x26);
    assert_eq!(PropertyID::PayloadFormatIndicator.to_u32(), 0x01);
    assert_eq!(PropertyID::SharedSubscriptionAvailable.to_u32(), 0x2a);
    let mut known = 0;
    for code in 0..=0xffu32 {
        if let Some(id) = PropertyID::from_u32(code) {
            assert_eq!(id.to_u32(), code);
            known += 1;
        }
    }
    assert_eq!(known, 27);
    assert_eq!(PropertyID::from_u32(0), None);
    assert_eq!(PropertyID::from_u32(0x04), None);
    assert_eq!(PropertyID::from_u32(0x2b), None);
    assert_eq!(PropertyID::from_u32(0x126), None);
    assert_eq!(PropertyID::from_u32(0x26), Some(PropertyID::UserProperty));
    assert_eq!(PropertyID::ResponseTopic.as_str(), "response topic");
    assert_eq!(PropertyID::ReceiveMaximum.as_str(), "Receive Maximum");
    assert_eq!(PropertyID::UserProperty.value_kind(), PropertyKind::Utf8StringPair);
    assert_eq!(PropertyID::ReceiveMaximum.value_kind(), PropertyKind::TwoByteInteger);
    assert_eq!(
        PropertyID::SubscriptionIdentifier.value_kind(),
        PropertyKind::VariableByteInteger
    );
}

#[test]
fn value_sizes_by_kind() {
    assert_eq!(value_size(&PropertyValue::Bool(true)), Some(1));
    assert_eq!(value_size(&PropertyValue::Byte(7)), Some(1));
    assert_eq!(value_size(&PropertyValue::TwoByteInteger(7)), Some(2));
    assert_eq!(value_size(&PropertyValue::FourByteInteger(7)), Some(4));
    assert_eq!(value_size(&PropertyValue::VariableByteInteger(128)), Some(2));
    assert_eq!(
        value_size(&PropertyValue::Utf8String("abc".to_string())),
        Some(5)
    );
    assert_eq!(value_size(&PropertyValue::BinaryData(vec![1, 2])), Some(4));
    assert_eq!(
        value_size(&PropertyValue::Utf8StringPair(
            "key".to_string(),
            "value".to_string()
        )),
        Some(12)
    );
}

#[test]
fn values_are_read_by_kind() {
    let mut cur = Cursor::new(vec![0x00, 0x01, b'k', 0x00, 0x01, b'v', 0x80, 0x01, 0x05]);
    match read_value(&mut cur, PropertyKind::Utf8StringPair) {
        Ok(PropertyValue::Utf8StringPair(k, v)) => {
            assert_eq!(k, "k");
            assert_eq!(v, "v");
        }
        other => panic!("{:?}", other),
    }
    match read_value(&mut cur, PropertyKind::VariableByteInteger) {
        Ok(PropertyValue::VariableByteInteger(v)) => assert_eq!(v, 128),
        other => panic!("{:?}", other),
    }
    match read_value(&mut cur, PropertyKind::Byte) {
        Ok(PropertyValue::Byte(v)) => assert_eq!(v, 5),
        other => panic!("{:?}", other),
    }
    assert!(matches!(
        read_value(&mut cur, PropertyKind::Bool),
        Err(Error::MalformedPacket)
    ));
    let mut out = Cursor::new(Vec::new());
    assert_eq!(
        write_value(&mut out, &PropertyValue::TwoByteInteger(0x0102)),
        Ok(())
    );
    assert_eq!(
        write_value(&mut out, &PropertyValue::BinaryData(vec![9])),
        Ok(())
    );
    assert_eq!(out.get_ref(), &vec![0x01, 0x02, 0x00, 0x01, 0x09]);
}

fn connect_properties() -> ConnectProperties {
    ConnectProperties {
        session_expiry_interval: Some(0x01020304),
        receive_maximum: Some(10),
        maximum_packet_size: None,
        topic_alias_maximum: None,
        request_problem_info: Some(true),
        request_response_info: None,
        user_property: vec![
            ("a".to_string(), "1".to_string()),
            ("b".to_string(), String::new()),
        ],
        authentication_method: "plain".to_string(),
        authentication_data: vec![0xde, 0xad],
    }
}

#[test]
fn block_is_written_in_the_order_of_the_table() {
    let props = connect_properties();
    let mut cur = Cursor::new(Vec::new());
    assert_eq!(props.write(&mut cur), Ok(()));
    let expected: Vec<u8> = vec![
        0x11, 0x01, 0x02, 0x03, 0x04, // session expiry interval
        0x21, 0x00, 0x0a, // receive maximum
        0x17, 0x01, // request problem information
        0x26, 0x00, 0x01, b'a', 0x00, 0x01, b'1', // user property
        0x26, 0x00, 0x01, b'b', 0x00, 0x00, // user property
        0x15, 0x00, 0x05, b'p', b'l', b'a', b'i', b'n', // authentication method
        0x16, 0x00, 0x02, 0xde, 0xad, // authentication data
    ];
    assert_eq!(cur.get_ref(), &expected);
    assert_eq!(props.len(), Some(expected.len() as u32));
    assert_eq!(block_len(&props), Some(36));
}

#[test]
fn block_reads_back_what_was_written() {
    let props = connect_properties();
    let mut cur = Cursor::new(Vec::new());
    assert_eq!(write_len_and(&mut cur, &props), Ok(()));
    cur.set_position(0);
    let back = ConnectProperties::read(&mut cur).unwrap().unwrap();
    assert_eq!(back.session_expiry_interval, Some(0x01020304));
    assert_eq!(back.receive_maximum, Some(10));
    assert_eq!(back.maximum_packet_size, None);
    assert_eq!(back.topic_alias_maximum, None);
    assert_eq!(back.request_problem_info, Some(true));
    assert_eq!(back.request_response_info, None);
    assert_eq!(back.user_property, props.user_property);
    assert_eq!(back.authentication_method, "plain");
    assert_eq!(back.authentication_data, vec![0xde, 0xad]);
    assert_eq!(cur.position(), cur.get_ref().len());
}

fn write_len_and(cur: &mut Cursor, props: &ConnectProperties) -> Result<(), Error> {
    cur.write_varuint32(props.len().unwrap())?;
    props.write(cur)
}

#[test]
fn block_of_length_zero_is_absent() {
    let mut cur = Cursor::new(vec![0x00, 0x21]);
    assert!(matches!(ConnectProperties::read(&mut cur), Ok(None)));
    assert_eq!(cur.position(), 1);
    let empty: ConnectProperties = Default::default();
    assert_eq!(empty.len(), Some(0));
    let mut out = Cursor::new(Vec::new());
    assert_eq!(empty.write(&mut out), Ok(()));
    assert!(out.get_ref().is_empty());
}

#[test]
fn block_reads_properties_in_any_order() {
    let mut cur = Cursor::new(vec![
        0x0a, 0x26, 0x00, 0x01, b'x', 0x00, 0x01, b'y', 0x21, 0x00, 0x05, 0xff,
    ]);
    let props = ConnectProperties::read(&mut cur).unwrap().unwrap();
    assert_eq!(props.receive_maximum, Some(5));
    assert_eq!(props.user_property, vec![("x".to_string(), "y".to_string())]);
    assert_eq!(cur.position(), 11);
}

#[test]
fn block_refuses_a_second_value_for_a_slot() {
    let mut cur = Cursor::new(vec![0x06, 0x21, 0x00, 0x0a, 0x21, 0x00, 0x0b]);
    assert!(matches!(
        ConnectProperties::read(&mut cur),
        Err(PacketError::PropertyAlreadyExists("Receive Maximum"))
    ));
    let mut cur = Cursor::new(vec![0x06, 0x03, 0x00, 0x00, 0x03, 0x00, 0x00]);
    assert!(matches!(
        WillProperties::read(&mut cur),
        Err(PacketError::PropertyAlreadyExists("Content type"))
    ));
}

#[test]
fn block_takes_a_repeated_slot_any_number_of_times() {
    let mut bytes = vec![21];
    for pair in [("a", "1"), ("a", "1"), ("b", "2")] {
        bytes.push(0x26);
        bytes.extend_from_slice(&[0x00, 0x01, pair.0.as_bytes()[0]]);
        bytes.extend_from_slice(&[0x00, 0x01, pair.1.as_bytes()[0]]);
    }
    let mut cur = Cursor::new(bytes);
    let props = WillProperties::read(&mut cur).unwrap().unwrap();
    assert_eq!(
        props.user_property,
        vec![
            ("a".to_string(), "1".to_string()),
            ("a".to_string(), "1".to_string()),
            ("b".to_string(), "2".to_string()),
        ]
    );
}

#[test]
fn block_refuses_an_identifier_that_it_does_not_hold() {
    let mut cur = Cursor::new(vec![0x02, 0x7f, 0x00]);
    assert!(matches!(
        ConnectProperties::read(&mut cur),
        Err(PacketError::InvalidPropertyID(0x7f))
    ));
    // a will delay interval is no property of a connect packet
    let mut cur = Cursor::new(vec![0x05, 0x18, 0x00, 0x00, 0x00, 0x01]);
    assert!(matches!(
        ConnectProperties::read(&mut cur),
        Err(PacketError::InvalidPropertyID(0x18))
    ));
    let mut cur = Cursor::new(vec![0x05, 0x18, 0x00, 0x00, 0x00, 0x01]);
    let will = WillProperties::read(&mut cur).unwrap().unwrap();
    assert_eq!(will.will_delay_interval, Some(1));
}

#[test]
fn block_refuses_a_property_that_runs_past_its_length() {
    let mut cur = Cursor::new(vec![0x02, 0x21, 0x00, 0x0a]);
    assert!(matches!(
        ConnectProperties::read(&mut cur),
        Err(PacketError::IOError(Error::MalformedPacket))
    ));
    let mut cur = Cursor::new(vec![0x03, 0x21, 0x00]);
    assert!(matches!(
        ConnectProperties::read(&mut cur),
        Err(PacketError::IOError(Error::MalformedPacket))
    ));
    let mut cur = Cursor::new(Vec::new());
    assert!(matches!(
        ConnectProperties::read(&mut cur),
        Err(PacketError::IOError(Error::MalformedPacket))
    ));
}

#[test]
fn block_counts_text_without_content_by_its_size() {
    let mut cur = Cursor::new(vec![0x06, 0x03, 0x00, 0x00, 0x08, 0x00, 0x00, 0xff]);
    let will = WillProperties::read(&mut cur).unwrap().unwrap();
    assert_eq!(will.content_type, "");
    assert_eq!(will.response_topic, "");
    assert_eq!(cur.position(), 7);
    assert_eq!(will.len(), Some(0));
}

#[test]
fn will_block_round_trip() {
    let will = WillProperties {
        will_delay_interval: Some(1024),
        payload_format_indicator: Some(false),
        message_expiry_interval: Some(u32::MAX),
        content_type: "text/plain".to_string(),
        response_topic: "reply/to".to_string(),
        correlation_data: vec![1, 2, 3],
        user_property: vec![("k".to_string(), "v".to_string())],
    };
    let len = will.len().unwrap();
    assert_eq!(len, 5 + 2 + 5 + 13 + 11 + 6 + 7);
    let mut cur = Cursor::new(Vec::new());
    assert_eq!(cur.write_varuint32(len), Ok(()));
    assert_eq!(write_block(&will, &mut cur), Ok(()));
    assert_eq!(cur.get_ref().len(), 1 + len as usize);
    cur.set_position(0);
    let back: WillProperties = read_block(&mut cur).unwrap().unwrap();
    assert_eq!(back.will_delay_interval, Some(1024));
    assert_eq!(back.payload_format_indicator, Some(false));
    assert_eq!(back.message_expiry_interval, Some(u32::MAX));
    assert_eq!(back.content_type, "text/plain");
    assert_eq!(back.response_topic, "reply/to");
    assert_eq!(back.correlation_data, vec![1, 2, 3]);
    assert_eq!(back.user_property, vec![("k".to_string(), "v".to_string())]);
}

#[test]
fn tables_and_accessors() {
    let table = ConnectProperties::table();
    assert_eq!(table.len(), 9);
    assert_eq!(table[0].id, PropertyID::SessionExpiryInterval);
    assert!(!table[0].repeatable);
    assert_eq!(table[6].id, PropertyID::UserProperty);
    assert!(table[6].repeatable);
    assert!(find_slot(&table, PropertyID::AuthenticationData).is_some());
    assert!(find_slot(&table, PropertyID::WillDelayInterval).is_none());
    assert_eq!(WillProperties::table().len(), 7);

    let mut props = ConnectProperties::empty();
    assert!(props.get(PropertyID::ReceiveMaximum).is_empty());
    props.set(PropertyID::ReceiveMaximum, PropertyValue::TwoByteInteger(7));
    props.set(
        PropertyID::AuthenticationMethod,
        PropertyValue::Utf8String("m".to_string()),
    );
    props.set(
        PropertyID::UserProperty,
        PropertyValue::Utf8StringPair("k".to_string(), "v".to_string()),
    );
    assert_eq!(props.receive_maximum, Some(7));
    assert_eq!(props.authentication_method, "m");
    assert_eq!(props.user_property.len(), 1);
    assert_eq!(props.get(PropertyID::ReceiveMaximum).len(), 1);
    assert!(props.get(PropertyID::ContentType).is_empty());
    props.set(
        PropertyID::AuthenticationMethod,
        PropertyValue::Utf8String(String::new()),
    );
    assert!(props.get(PropertyID::AuthenticationMethod).is_empty());
}

#[test]
fn generic_block_read_keeps_the_failures_of_the_codec() {
    let mut cur = Cursor::new(vec![0x02, 0x7f, 0x00]);
    let read: Result<Option<ConnectProperties>, Error> = read_block(&mut cur);
    assert!(matches!(read, Err(Error::InvalidPropertyID(0x7f))));
    let mut cur = Cursor::new(vec![0x06, 0x21, 0x00, 0x0a, 0x21, 0x00, 0x0b]);
    let read: Result<Option<ConnectProperties>, Error> = read_block(&mut cur);
    assert!(matches!(
        read,
        Err(Error::PropertyAlreadyExists("Receive Maximum"))
    ));
}
