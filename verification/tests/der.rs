use learn_der::der::{encode_length, DERTag, Parser, MAX_PARSE_SIZE};
use learn_der::errors::DerError;

#[test]
fn test_tag_from_byte() {
    match DERTag::from_byte(0x30) { Ok(DERTag::Sequence) => {}, _ => panic!() }
    match DERTag::from_byte(0x02) { Ok(DERTag::Integer) => {}, _ => panic!() }
    match DERTag::from_byte(0x0c) { Ok(DERTag::UTF8String) => {}, _ => panic!() }
    match DERTag::from_byte(0x13) { Ok(DERTag::PrintableString) => {}, _ => panic!() }
    match DERTag::from_byte(0x05) { Ok(DERTag::Null) => {}, _ => panic!() }
    assert!(DERTag::from_byte(0xff).is_err());
}

#[test]
fn test_null_encoding() {
    // NULL = tag 0x05 + length 0x00
    assert_eq!(DERTag::Null.to_byte(), 0x05);
    assert_eq!(DERTag::Null.to_name(), "Null(0x5)");
}

#[test]
fn test_null_roundtrip() {
    // from_byte → to_byte roundtrip
    let tag = DERTag::from_byte(0x05).unwrap();
    assert_eq!(tag, DERTag::Null);
    assert_eq!(tag.to_byte(), 0x05);
}

#[test]
fn test_nonminimal_length_encoding_rejected() {
    // Length 5 encoded as 0x81 0x05 (2 bytes instead of 0x05)
    let mut parser = Parser::new(&[0x81, 0x05]);
    assert!(parser.read_length().is_err());
}

#[test]
fn test_nonminimal_length_leading_zeros_rejected() {
    // Length 1 encoded as 0x82 0x00 0x01
    let mut parser = Parser::new(&[0x82, 0x00, 0x01]);
    assert!(parser.read_length().is_err());
}

#[test]
fn test_valid_length_256_accepts_2_byte_encoding() {
    // Length 256 encoded as 0x82 0x01 0x00 — this is minimal
    let mut parser = Parser::new(&[0x82, 0x01, 0x00]);
    assert_eq!(parser.read_length().unwrap(), 256);
}

#[test]
fn test_valid_short_length_accepted() {
    // Length 127 encoded as 0x7f — minimal
    let mut parser = Parser::new(&[0x7f]);
    assert_eq!(parser.read_length().unwrap(), 127);
}

#[test]
fn tag_names_of_all_tags() {
    assert_eq!(DERTag::Sequence.to_name(), "Sequence(0x30)");
    assert_eq!(DERTag::Integer.to_name(), "Integer(0x2)");
    assert_eq!(DERTag::OctetString.to_name(), "OctetString(0x4)");
    assert_eq!(DERTag::UTF8String.to_name(), "UTF8String(0xc)");
    assert_eq!(DERTag::PrintableString.to_name(), "PrintableString(0x13)");
    assert_eq!(DERTag::ErrUnknown(0x07).to_name(), "Unknown(0x07)");
    assert_eq!(DERTag::ErrUnknown(0xab).to_name(), "Unknown(0xab)");
}

#[test]
fn tag_byte_roundtrip_for_every_byte() {
    for b in 0u8..=255 {
        match DERTag::from_byte(b) {
            Ok(tag) => assert_eq!(tag.to_byte(), b),
            Err(DerError::UnknownTag { found }) => assert_eq!(found, b),
            Err(other) => panic!("unexpected error {:?}", other),
        }
    }
    assert_eq!(DERTag::ErrUnknown(0x42).to_byte(), 0x42);
}

#[test]
fn encode_length_short_and_long_forms() {
    assert_eq!(encode_length(0), vec![0x00]);
    assert_eq!(encode_length(127), vec![0x7f]);
    assert_eq!(encode_length(128), vec![0x81, 0x80]);
    assert_eq!(encode_length(255), vec![0x81, 0xff]);
    assert_eq!(encode_length(256), vec![0x82, 0x01, 0x00]);
    assert_eq!(encode_length(0x1234_5678), vec![0x84, 0x12, 0x34, 0x56, 0x78]);
}

#[test]
fn length_roundtrip_on_sample_lengths() {
    for len in [0usize, 1, 127, 128, 200, 255, 256, 65535, 65536, 1_000_000, MAX_PARSE_SIZE] {
        let enc = encode_length(len);
        let mut parser = Parser::new(&enc);
        assert_eq!(parser.read_length().unwrap(), len);
        assert_eq!(parser.read_pos(), enc.len());
        assert!(!parser.has_more());
    }
}

#[test]
fn read_length_errors() {
    // first byte 0x80: zero length bytes
    let mut p = Parser::new(&[0x80]);
    assert!(matches!(p.read_length(), Err(DerError::NonMinimalEncoding { .. })));
    // five length bytes
    let mut p = Parser::new(&[0x85, 1, 0, 0, 0, 0]);
    assert!(matches!(p.read_length(), Err(DerError::NonMinimalEncoding { .. })));
    // 128 written with a leading zero byte
    let mut p = Parser::new(&[0x82, 0x00, 0x80]);
    assert!(matches!(p.read_length(), Err(DerError::NonMinimalEncoding { .. })));
    // truncated length bytes
    let mut p = Parser::new(&[0x82, 0x01]);
    assert!(matches!(p.read_length(), Err(DerError::UnexpectedEndOfData { pos: 2 })));
    assert_eq!(p.read_pos(), 2);
    // above the size limit
    let mut p = Parser::new(&[0x84, 0x04, 0x00, 0x00, 0x01]);
    match p.read_length() {
        Err(DerError::MaxSizeExceeded { max, size }) => {
            assert_eq!(max, MAX_PARSE_SIZE);
            assert_eq!(size, MAX_PARSE_SIZE + 1);
        }
        other => panic!("unexpected {:?}", other),
    }
    // empty input
    let mut p = Parser::new(&[]);
    assert!(matches!(p.read_length(), Err(DerError::UnexpectedEndOfData { pos: 0 })));
}

#[test]
fn parser_reads_bytes_and_values() {
    let data = [0x30u8, 0x03, 1, 2, 3];
    let mut p = Parser::new(&data);
    assert_eq!(p.peek(), Some(0x30));
    assert_eq!(p.read_tag().unwrap(), DERTag::Sequence);
    assert_eq!(p.read_length().unwrap(), 3);
    assert_eq!(p.read_value(3).unwrap(), Some(vec![1, 2, 3]));
    assert_eq!(p.allocated(), 3);
    assert_eq!(p.read_pos(), 5);
    assert!(!p.has_more());
    assert_eq!(p.peek(), None);
    assert!(matches!(p.next(), Err(DerError::UnexpectedEndOfData { pos: 5 })));
    assert_eq!(p.read_value(0).unwrap(), None);
}

#[test]
fn parser_value_overrun_and_unknown_tag() {
    let data = [0x04u8, 0x05, 1, 2];
    let mut p = Parser::new(&data);
    p.read_tag().unwrap();
    let len = p.read_length().unwrap();
    assert!(matches!(p.read_value(len), Err(DerError::UnexpectedEndOfData { pos: 4 })));
    assert_eq!(p.read_pos(), 4);
    assert_eq!(p.allocated(), 5);

    let mut p = Parser::new(&[0xee]);
    assert!(matches!(p.read_tag(), Err(DerError::UnknownTag { found: 0xee })));
}

#[test]
fn expect_tag_reports_both_names() {
    let mut p = Parser::new(&[0x02]);
    match p.expect_tag(DERTag::Sequence) {
        Err(DerError::WrongTag { expected, found }) => {
            assert_eq!(expected, "Sequence(0x30)");
            assert_eq!(found, "Integer(0x2)");
        }
        other => panic!("unexpected {:?}", other),
    }
    let mut p = Parser::new(&[0x05]);
    assert_eq!(p.expect_tag(DERTag::Null).unwrap(), DERTag::Null);
}

#[test]
fn der_error_messages() {
    assert_eq!(DerError::UnexpectedEndOfData { pos: 12 }.message(), "Unexpected end of data at position 12");
    assert_eq!(DerError::UnknownTag { found: 0xff }.message(), "Unknown Tag: found 0xff");
    assert_eq!(DerError::UnknownTag { found: 0x7 }.message(), "Unknown Tag: found 0x7");
    assert_eq!(
        DerError::MaxDepthExceeded { max: 32, depth: 33 }.message(),
        "Parse depth exceeded maximum allowed depth of 32 (found 33)"
    );
    assert_eq!(
        DerError::MaxSizeExceeded { max: 67108864, size: 100000000 }.message(),
        "Parse size exceeded maximum allowed size of 67108864 bytes (found 100000000 bytes)"
    );
    assert_eq!(
        DerError::InvalidLength { expected: 0, found: 10 }.message(),
        "Invalid Length: expected 0, found 10"
    );
    let bad = String::from_utf8(vec![0xff]).unwrap_err();
    assert_eq!(DerError::InvalidUtf8(bad).message(), "Data is not valid UTF-8");
    let io = std::io::Error::new(std::io::ErrorKind::Other, "disk gone");
    assert_eq!(DerError::Io(io).message(), "IO Error: disk gone");
    assert_eq!(DerError::IntConversion.message(), "Integer conversion error");
    assert_eq!(
        DerError::InvalidPrintableString.message(),
        "Invalid PrintableString: contains non-allowed characters"
    );
    assert_eq!(DerError::NonMinimalEncoding { field: "length" }.message(), "Non-minimal encoding of length");
    assert_eq!(
        DerError::WrongTag { expected: "A".to_string(), found: "B".to_string() }.message(),
        "Wrong Tag: expected A, found B"
    );
}
