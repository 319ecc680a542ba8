use mqttv5::mqttio::errors::Error;
use mqttv5::mqttio::io::{
    validate_utf8_chars, BinaryData, Cursor, Reader, UTF8String, VarUint32Size, Writer,
    MAX_VARUINT32,
};

fn check_u8(value: u8) {
    let mut cur = Cursor::new(vec![0; 24]);
    let written = cur.write_u8(value);
    assert!(written.is_ok());
    cur.set_position(0);
    let result = cur.read_u8();
    assert!(result.is_ok());
    assert_eq!(&value, &result.unwrap());
}

fn check_bool(value: bool) {
    let mut cur = Cursor::new(vec![0; 24]);
    let written = cur.write_bool(value);
    assert!(written.is_ok());
    cur.set_position(0);
    let result = cur.read_bool();
    assert!(result.is_ok());
    assert_eq!(&value, &result.unwrap());
}

fn check_u16(value: u16) {
    let mut cur = Cursor::new(vec![0; 24]);
    let written = cur.write_u16(value);
    assert!(written.is_ok());
    cur.set_position(0);
    let result = cur.read_u16();
    assert!(result.is_ok());
    assert_eq!(&value, &result.unwrap());
}

fn check_u32(value: u32) {
    let mut cur = Cursor::new(vec![0; 24]);
    let written = cur.write_u32(value);
    assert!(written.is_ok());
    cur.set_position(0);
    let result = cur.read_u32();
    assert!(result.is_ok());
    assert_eq!(&value, &result.unwrap());
}

fn check_varuint32(value: u32) {
    let mut cur = Cursor::new(vec![0; 24]);
    let written = cur.write_varuint32(value);
    assert!(written.is_ok());
    cur.set_position(0);
    let result = cur.read_varuint32();
    assert!(result.is_ok());
    assert_eq!(&value, &result.unwrap());
}

fn check_string(value: String) {
    let mut cur = Cursor::new(vec![0; 24]);
    let written = cur.write_utf8_string(&value);
    assert!(written.is_ok());
    cur.set_position(0);
    let result = cur.read_utf8_string();
    assert!(result.is_ok());
    assert_eq!(&value, &result.unwrap());
}

fn check_binary(value: Vec<u8>) {
    let mut cur = Cursor::new(vec![0; 24]);
    let written = cur.write_binary(&value);
    assert!(written.is_ok());
    cur.set_position(0);
    let result = cur.read_binary();
    assert!(result.is_ok());
    assert_eq!(&value, &result.unwrap());
}

#[test]
fn test_byte_type() {
    check_u8(0x64);
}

#[test]
fn test_bool_type() {
    check_bool(true);
}

#[test]
fn test_u16_type() {
    check_u16(1024);
}

#[test]
fn test_u32_type() {
    check_u32(8192);
}

#[test]
fn test_varu32_type() {
    let data: [u32; 8] = [0, 127, 128, 16383, 16384, 2097151, 2097152, 268435455];
    for d in data {
        check_varuint32(d);
    }

    // Error cases
    {
        let mut cur = Cursor::new(vec![0x80, 0x80, 0x80, 0x80, 0x01]);
        let result = Reader::read_varuint32(&mut cur);
        assert!(
            result.is_err(),
            "VarUint32 reader did not return an error for a value that is above permissible"
        );
    }

    {
        let mut cur = Cursor::new(vec![0; 24]);
        let result = Writer::write_varuint32(&mut cur, MAX_VARUINT32 + 1);
        assert!(
            result.is_err(),
            "VarUint32 writer did not return an error for a value {} that is above permissible",
            MAX_VARUINT32 + 1
        );
    }
    {
        let mut cur = Cursor::new(Vec::new());
        let result = Reader::read_varuint32(&mut cur);
        assert!(
            result.is_err(),
            "VarUint32 reader did not return an error(underflow - EOF) for zero bytes input buffer"
        );
    }
    {
        let mut cur = Cursor::new(vec![0x80, 0x80, 0x80]);
        let result = Reader::read_varuint32(&mut cur);
        assert!(
            result.is_err(),
            "VarUint32 reader did not return an error(underflow - EOF) for an invalid input buffer"
        );
    }
}

#[test]
fn test_string_type() {
    let data: [&str; 2] = ["hello world", "\u{FEFF}"];
    for d in data {
        println!("Len {}", d.len());
        check_string(d.to_string());
    }
}

#[test]
fn test_binary_data_type() {
    let data = [
        vec!['h' as u8, 'e' as u8, 'l' as u8, 'l' as u8, 'o' as u8],
        vec![0xEF, 0xBB, 0xBF], // MQTT-1.5.4-3
    ];
    for d in data {
        check_binary(d);
    }
}

#[test]
fn test_encoded_varuin32_size() {
    let data = [
        (0, 1),
        (127, 1),
        (128, 2),
        (16383, 2),
        (16384, 3),
        (2097151, 3),
        (2097152, 4),
        (268435455, 4),
    ];

    for d in data {
        let size = VarUint32Size::size(d.0);
        assert_eq!(
            size, d.1,
            "The encoded varuint32 size differs for {}, actual: {} expected: {}",
            d.0, size, d.1
        );
    }
}

fn check_forbidden_char(c: char) {
    let s = c.to_string();
    let mut cur = Cursor::new(s.as_bytes().to_vec());
    let result = Reader::read_utf8_string(&mut cur);
    assert!(result.is_err());
}

#[test]
fn test_valid_utf8_char() {
    for c in '\u{0000}'..='\u{001f}' {
        check_forbidden_char(c);
    }
    for c in '\u{007f}'..='\u{009f}' {
        check_forbidden_char(c);
    }
}

#[test]
fn varuint32_wire_forms() {
    let cases: [(u32, Vec<u8>); 8] = [
        (0, vec![0x00]),
        (127, vec![0x7f]),
        (128, vec![0x80, 0x01]),
        (16383, vec![0xff, 0x7f]),
        (16384, vec![0x80, 0x80, 0x01]),
        (2097151, vec![0xff, 0xff, 0x7f]),
        (2097152, vec![0x80, 0x80, 0x80, 0x01]),
        (268435455, vec![0xff, 0xff, 0xff, 0x7f]),
    ];
    for (value, bytes) in cases {
        let mut cur = Cursor::new(Vec::new());
        assert_eq!(cur.write_varuint32(value), Ok(()));
        assert_eq!(cur.get_ref(), &bytes);
        let mut back = Cursor::new(bytes.clone());
        assert_eq!(back.read_varuint32(), Ok(value));
        assert_eq!(back.position(), bytes.len());
    }
}

#[test]
fn varuint32_errors_are_told_apart() {
    let mut cur = Cursor::new(Vec::new());
    assert_eq!(
        cur.write_varuint32(268435456),
        Err(Error::InvalidVarUint32(268435456))
    );
    assert!(cur.get_ref().is_empty());

    let mut cur = Cursor::new(vec![0x80, 0x80, 0x80, 0x80, 0x80]);
    assert_eq!(
        cur.read_varuint32(),
        Err(Error::InvalidVarUint32Length(268435456))
    );

    let mut cur = Cursor::new(Vec::new());
    assert_eq!(cur.read_varuint32(), Err(Error::MalformedPacket));

    let mut cur = Cursor::new(vec![0x80, 0x80, 0x80]);
    assert_eq!(cur.read_varuint32(), Err(Error::MalformedPacket));
}

#[test]
fn varuint32_size_past_the_largest() {
    assert_eq!(VarUint32Size::size(268435456), 5);
    assert_eq!(VarUint32Size::size(u32::MAX), 5);
}

#[test]
fn varuint32_reads_a_padded_form() {
    let mut cur = Cursor::new(vec![0x80, 0x00, 0x55]);
    assert_eq!(cur.read_varuint32(), Ok(0));
    assert_eq!(cur.position(), 2);
}

#[test]
fn fixed_width_wire_forms() {
    let mut cur = Cursor::new(Vec::new());
    assert_eq!(cur.write_bool(true), Ok(()));
    assert_eq!(cur.write_bool(false), Ok(()));
    assert_eq!(cur.write_u8(0xab), Ok(()));
    assert_eq!(cur.write_u16(0x1234), Ok(()));
    assert_eq!(cur.write_u32(0x89abcdef), Ok(()));
    assert_eq!(
        cur.get_ref(),
        &vec![0x01, 0x00, 0xab, 0x12, 0x34, 0x89, 0xab, 0xcd, 0xef]
    );
    cur.set_position(0);
    assert_eq!(cur.read_bool(), Ok(true));
    assert_eq!(cur.read_bool(), Ok(false));
    assert_eq!(cur.read_u8(), Ok(0xab));
    assert_eq!(cur.read_u16(), Ok(0x1234));
    assert_eq!(cur.read_u32(), Ok(0x89abcdef));
    assert_eq!(cur.read_u8(), Err(Error::MalformedPacket));
}

#[test]
fn bool_reads_any_byte_but_zero_as_true() {
    let mut cur = Cursor::new(vec![0x02, 0xff, 0x00]);
    assert_eq!(cur.read_bool(), Ok(true));
    assert_eq!(cur.read_bool(), Ok(true));
    assert_eq!(cur.read_bool(), Ok(false));
}

#[test]
fn short_input_is_a_malformed_packet() {
    assert_eq!(Cursor::new(vec![0x01]).read_u16(), Err(Error::MalformedPacket));
    assert_eq!(
        Cursor::new(vec![0x01, 0x02, 0x03]).read_u32(),
        Err(Error::MalformedPacket)
    );
    assert_eq!(
        Cursor::new(vec![0x00, 0x03, b'a', b'b']).read_binary(),
        Err(Error::MalformedPacket)
    );
    assert_eq!(
        Cursor::new(vec![0x00]).read_utf8_string(),
        Err(Error::MalformedPacket)
    );
    assert_eq!(
        Cursor::new(vec![0x00, 0x01, b'k', 0x00, 0x02, b'v']).read_key_value_pair(),
        Err(Error::MalformedPacket)
    );
}

#[test]
fn text_wire_form_and_zero_length() {
    let mut cur = Cursor::new(Vec::new());
    assert_eq!(cur.write_utf8_string("hello"), Ok(()));
    assert_eq!(cur.write_utf8_string(""), Ok(()));
    assert_eq!(cur.write_binary(&[]), Ok(()));
    assert_eq!(
        cur.get_ref(),
        &vec![0x00, 0x05, b'h', b'e', b'l', b'l', b'o', 0x00, 0x00, 0x00, 0x00]
    );
    cur.set_position(0);
    assert_eq!(cur.read_utf8_string(), Ok("hello".to_string()));
    assert_eq!(cur.read_utf8_string(), Ok(String::new()));
    assert_eq!(cur.read_binary(), Ok(Vec::new()));
}

#[test]
fn text_of_more_than_one_byte_for_a_character() {
    let text = "gr\u{fc}\u{df}e \u{4e16}\u{754c} \u{1f600}";
    let mut cur = Cursor::new(Vec::new());
    assert_eq!(cur.write_utf8_string(text), Ok(()));
    assert_eq!(cur.get_ref().len(), 2 + text.len());
    cur.set_position(0);
    assert_eq!(cur.read_utf8_string(), Ok(text.to_string()));
}

#[test]
fn text_that_is_not_utf8_is_refused() {
    let mut cur = Cursor::new(vec![0x00, 0x02, 0xc3, 0x28]);
    assert_eq!(cur.read_utf8_string(), Err(Error::InvalidUTF8String));
    let mut cur = Cursor::new(vec![0x00, 0x03, 0xed, 0xa0, 0x80]);
    assert_eq!(cur.read_utf8_string(), Err(Error::InvalidUTF8String));
}

#[test]
fn text_with_a_forbidden_code_point_is_refused() {
    for c in ['\u{0000}', '\u{001f}', '\u{007f}', '\u{0080}', '\u{009f}'] {
        let text = c.to_string();
        let mut cur = Cursor::new(Vec::new());
        assert_eq!(cur.write_utf8_string(&text), Ok(()));
        cur.set_position(0);
        assert_eq!(cur.read_utf8_string(), Err(Error::InvalidUTF8String));
        assert!(!validate_utf8_chars(&text));
    }
    for c in ['\u{0020}', '\u{007e}', '\u{00a0}'] {
        let text = c.to_string();
        let mut cur = Cursor::new(Vec::new());
        assert_eq!(cur.write_utf8_string(&text), Ok(()));
        cur.set_position(0);
        assert_eq!(cur.read_utf8_string(), Ok(text.clone()));
        assert!(validate_utf8_chars(&text));
    }
}

#[test]
fn data_too_long_for_its_prefix_is_refused() {
    let long = vec![0x61u8; 65536];
    let mut cur = Cursor::new(Vec::new());
    assert_eq!(cur.write_binary(&long), Err(Error::MalformedPacket));
    assert!(cur.get_ref().is_empty());
    let text = "a".repeat(65536);
    assert_eq!(cur.write_utf8_string(&text), Err(Error::MalformedPacket));
    assert!(cur.get_ref().is_empty());

    let longest = vec![0x61u8; 65535];
    assert_eq!(cur.write_binary(&longest), Ok(()));
    assert_eq!(cur.get_ref().len(), 65537);
    assert_eq!(&cur.get_ref()[..2], &[0xff, 0xff]);
    cur.set_position(0);
    assert_eq!(cur.read_binary(), Ok(longest));
}

#[test]
fn key_value_pair_wire_form() {
    let mut cur = Cursor::new(Vec::new());
    assert_eq!(cur.write_key_value_pair("k", "val"), Ok(()));
    assert_eq!(
        cur.get_ref(),
        &vec![0x00, 0x01, b'k', 0x00, 0x03, b'v', b'a', b'l']
    );
    cur.set_position(0);
    assert_eq!(
        cur.read_key_value_pair(),
        Ok(("k".to_string(), "val".to_string()))
    );
}

#[test]
fn sizes_with_the_length_prefix() {
    assert_eq!(UTF8String::size(&"hello".to_string()), 7);
    assert_eq!(UTF8String::size(&String::new()), 2);
    assert_eq!(UTF8String::size(&"\u{4e16}".to_string()), 5);
    assert_eq!(BinaryData::size(&vec![1, 2, 3]), 5);
    assert_eq!(BinaryData::size(&Vec::new()), 2);
}

#[test]
fn cursor_writes_over_what_stands_and_past_the_end() {
    let mut cur = Cursor::new(vec![1, 2, 3]);
    cur.set_position(2);
    assert_eq!(cur.write_u16(0xaabb), Ok(()));
    assert_eq!(cur.get_ref(), &vec![1, 2, 0xaa, 0xbb]);
    assert_eq!(cur.position(), 4);
    cur.set_position(1);
    assert_eq!(cur.read_exact_buf(2), Ok(vec![2, 0xaa]));
    assert_eq!(cur.read_exact_buf(2), Err(Error::MalformedPacket));
    assert_eq!(cur.read_exact_buf(0), Ok(Vec::new()));
    cur.set_position(1);
    assert_eq!(cur.write_u8(9), Ok(()));
    assert_eq!(cur.into_written(), vec![1, 9]);
}

#[test]
fn cursor_past_the_end_counts_as_the_end() {
    let mut cur = Cursor::new(vec![1, 2]);
    cur.set_position(10);
    assert_eq!(cur.position(), 2);
    assert_eq!(cur.read_u8(), Err(Error::MalformedPacket));
    assert_eq!(cur.write_u8(3), Ok(()));
    assert_eq!(cur.into_inner(), vec![1, 2, 3]);
}

#[test]
fn refused_writes_leave_the_cursor_as_it_was() {
    let mut cur = Cursor::new(vec![0u8; 24]);
    assert_eq!(
        cur.write_varuint32(MAX_VARUINT32 + 1),
        Err(Error::InvalidVarUint32(268435456))
    );
    assert_eq!(cur.position(), 0);
    assert_eq!(cur.get_ref(), &vec![0u8; 24]);
    let text = "a".repeat(65536);
    assert_eq!(cur.write_utf8_string(&text), Err(Error::MalformedPacket));
    assert_eq!(cur.write_binary(text.as_bytes()), Err(Error::MalformedPacket));
    assert_eq!(cur.write_key_value_pair(&text, "v"), Err(Error::MalformedPacket));
    assert_eq!(cur.position(), 0);
    assert_eq!(cur.get_ref(), &vec![0u8; 24]);
}

#[test]
fn a_variable_length_integer_takes_at_most_four_bytes() {
    let mut cur = Cursor::new(vec![0x80, 0x80, 0x80, 0x80, 0x01]);
    assert!(cur.read_varuint32().is_err());
    assert_eq!(cur.position(), 4);
    assert_eq!(cur.read_u8(), Ok(0x01));
    let mut cur = Cursor::new(vec![0x80, 0x80, 0x80]);
    assert_eq!(cur.read_varuint32(), Err(Error::MalformedPacket));
    assert_eq!(cur.position(), 3);
    let mut cur = Cursor::new(vec![0x80, 0x01, 0x7f]);
    assert_eq!(cur.read_varuint32(), Ok(128));
    assert_eq!(cur.position(), 2);
}

#[test]
fn a_failed_read_of_fixed_width_leaves_the_cursor_as_it_was() {
    let mut cur = Cursor::new(vec![0x01, 0x02, 0x03]);
    assert_eq!(cur.read_u8(), Ok(1));
    assert_eq!(cur.read_u32(), Err(Error::MalformedPacket));
    assert_eq!(cur.position(), 1);
    assert_eq!(cur.read_u16(), Ok(0x0203));
    assert_eq!(cur.read_bool(), Err(Error::MalformedPacket));
    assert_eq!(cur.position(), 3);
    assert_eq!(cur.get_ref(), &vec![0x01, 0x02, 0x03]);
}

#[test]
fn a_failed_read_of_prefixed_data_stops_where_it_failed() {
    // the length is cut short: nothing is taken
    let mut cur = Cursor::new(vec![0x00]);
    assert_eq!(cur.read_binary(), Err(Error::MalformedPacket));
    assert_eq!(cur.position(), 0);
    // the data is cut short: the length is taken
    let mut cur = Cursor::new(vec![0x00, 0x03, b'a', b'b']);
    assert_eq!(cur.read_binary(), Err(Error::MalformedPacket));
    assert_eq!(cur.position(), 2);
    // the text is refused: the length and the data are taken
    let mut cur = Cursor::new(vec![0x00, 0x01, 0x07, 0x55]);
    assert_eq!(cur.read_utf8_string(), Err(Error::InvalidUTF8String));
    assert_eq!(cur.position(), 3);
    // the value is cut short: the name and the length of the value are taken
    let mut cur = Cursor::new(vec![0x00, 0x01, b'k', 0x00, 0x02, b'v']);
    assert_eq!(cur.read_key_value_pair(), Err(Error::MalformedPacket));
    assert_eq!(cur.position(), 5);
    assert_eq!(cur.get_ref(), &vec![0x00, 0x01, b'k', 0x00, 0x02, b'v']);
}
