use learn_der::asn1::{is_valid_printable_string, ASN1Element};
use learn_der::errors::DerError;

#[test]
fn test_printable_string_valid_chars() {
    // All allowed characters
    assert!(is_valid_printable_string("Hello-World:123?"));
    assert!(is_valid_printable_string(" 2 L "));
    assert!(is_valid_printable_string("A-Z a-z 0-9 '+,-:=?"));
}

#[test]
fn test_printable_string_invalid_chars() {
    // Space is allowed, but other whitespace is not
    assert!(!is_valid_printable_string("hello\tworld"));
    assert!(!is_valid_printable_string("hello\nworld"));
    // Accented chars, UTF-8 multibyte
    assert!(!is_valid_printable_string("café"));
    assert!(!is_valid_printable_string("日本語"));
    // Slash, parens, at-sign are NOT in PrintableString
    assert!(!is_valid_printable_string("test@example.com"));
    assert!(!is_valid_printable_string("path/to/file"));
}

#[test]
fn test_asn1_printable_string_to_der() {
    let elem = ASN1Element::PrintableString("L".to_string());
    let der = elem.to_der().unwrap();
    // tag=0x13, len=1, value="L"
    assert_eq!(der, vec![0x13, 0x01, b'L']);
}

#[test]
fn test_asn1_printable_string_invalid_to_der() {
    let elem = ASN1Element::PrintableString("café".to_string());
    assert!(elem.to_der().is_err());
}

#[test]
fn test_asn1_printable_string_from_der() {
    // DER: tag=0x13, len=1, value="L"
    let der = vec![0x13, 0x01, b'L'];
    let (elem, pos) = ASN1Element::from_der(&der, 0).unwrap();
    assert_eq!(pos, der.len());
    assert_eq!(elem, ASN1Element::PrintableString("L".to_string()));
}

#[test]
fn test_asn1_printable_string_from_der_invalid() {
    // DER with invalid char (0x01 is not in PrintableString set)
    let der = vec![0x13, 0x01, 0x01];
    assert!(ASN1Element::from_der(&der, 0).is_err());
}

#[test]
fn test_asn1_printable_string_roundtrip() {
    let original = "L".to_string();
    let elem = ASN1Element::PrintableString(original.clone());
    let der = elem.to_der().unwrap();
    let (decoded, _) = ASN1Element::from_der(&der, 0).unwrap();
    assert_eq!(decoded, ASN1Element::PrintableString(original));
}

#[test]
fn test_asn1_null_to_der() {
    let elem = ASN1Element::Null;
    // tag=0x05, len=0x00
    assert_eq!(elem.to_der().unwrap(), vec![0x05, 0x00]);
}

#[test]
fn test_asn1_null_from_der() {
    let der = vec![0x05, 0x00];
    let (elem, pos) = ASN1Element::from_der(&der, 0).unwrap();
    assert_eq!(pos, 2);
    assert_eq!(elem, ASN1Element::Null);
}

#[test]
fn test_asn1_null_roundtrip() {
    let elem = ASN1Element::Null;
    let der = elem.to_der().unwrap();
    let (decoded, _) = ASN1Element::from_der(&der, 0).unwrap();
    assert_eq!(decoded, ASN1Element::Null);
}

/// A SEQUENCE that claims its inner content is 10 bytes but only provides 3.
#[test]
fn test_sequence_length_exceeds_available_bytes() {
    let malformed = vec![0x30, 0x0a, 0x02, 0x01, 0x01];
    assert!(ASN1Element::from_der(&malformed, 0).is_err());
}

/// A SEQUENCE whose inner element claims a length beyond the sequence's own
/// declared boundaries.
#[test]
fn test_child_element_overreaches_parent_boundaries() {
    let malformed = vec![0x30, 0x03, 0x02, 0x64, 0x00];
    assert!(ASN1Element::from_der(&malformed, 0).is_err());
}

/// Truncated data: the input ends mid-element.
#[test]
fn test_truncated_integer_value() {
    let truncated = vec![0x02, 0x05, 0x01, 0x02];
    assert!(ASN1Element::from_der(&truncated, 0).is_err());
}

/// Nested SEQUENCE with a deeply overreaching child.
#[test]
fn test_nested_sequence_child_overreach() {
    let malformed = vec![0x30, 0x04, 0x30, 0x02, 0x02, 0x64];
    assert!(ASN1Element::from_der(&malformed, 0).is_err());
}

/// Skip position points past the end of the buffer.
#[test]
fn test_skip_position_beyond_buffer() {
    let data = vec![0x05, 0x00]; // NULL
    assert!(ASN1Element::from_der(&data, 100).is_err());
}

fn int_der(v: i128) -> Vec<u8> {
    ASN1Element::Integer(v).to_der().unwrap()
}

#[test]
fn integer_encodings_are_minimal_twos_complement() {
    assert_eq!(int_der(0), vec![0x02, 0x01, 0x00]);
    assert_eq!(int_der(2), vec![0x02, 0x01, 0x02]);
    assert_eq!(int_der(127), vec![0x02, 0x01, 0x7f]);
    assert_eq!(int_der(128), vec![0x02, 0x02, 0x00, 0x80]);
    assert_eq!(int_der(256), vec![0x02, 0x02, 0x01, 0x00]);
    assert_eq!(int_der(-1), vec![0x02, 0x01, 0xff]);
    assert_eq!(int_der(-128), vec![0x02, 0x01, 0x80]);
    assert_eq!(int_der(-129), vec![0x02, 0x02, 0xff, 0x7f]);
    let mut max = vec![0x02, 0x10, 0x7f];
    max.extend_from_slice(&[0xff; 15]);
    assert_eq!(int_der(i128::MAX), max);
    let mut min = vec![0x02, 0x10, 0x80];
    min.extend_from_slice(&[0x00; 15]);
    assert_eq!(int_der(i128::MIN), min);
}

#[test]
fn integer_roundtrip_on_sample_values() {
    let samples = [
        0i128, 1, -1, 127, 128, -128, -129, 255, 256, 65535, -65536, u64::MAX as i128,
        i64::MIN as i128, i128::MAX, i128::MIN,
    ];
    for v in samples {
        let der = int_der(v);
        let (decoded, pos) = ASN1Element::from_der(&der, 0).unwrap();
        assert_eq!(decoded, ASN1Element::Integer(v));
        assert_eq!(pos, der.len());
    }
}

#[test]
fn integer_decode_errors() {
    // non-minimal: leading zero before a byte below 0x80
    assert!(matches!(
        ASN1Element::from_der(&[0x02, 0x02, 0x00, 0x7f], 0),
        Err(DerError::NonMinimalEncoding { .. })
    ));
    // non-minimal: leading 0xff before a byte from 0x80
    assert!(matches!(
        ASN1Element::from_der(&[0x02, 0x02, 0xff, 0x80], 0),
        Err(DerError::NonMinimalEncoding { .. })
    ));
    // seventeen bytes do not fit 128 bits
    let mut big = vec![0x02, 0x11, 0x01];
    big.extend_from_slice(&[0u8; 16]);
    assert!(matches!(ASN1Element::from_der(&big, 0), Err(DerError::IntConversion)));
    // an empty INTEGER
    assert!(matches!(
        ASN1Element::from_der(&[0x02, 0x00], 0),
        Err(DerError::UnexpectedEndOfData { pos: 0 })
    ));
}

#[test]
fn string_and_sequence_errors() {
    // invalid UTF-8 in a UTF8String
    assert!(matches!(ASN1Element::from_der(&[0x0c, 0x01, 0xff], 0), Err(DerError::InvalidUtf8(_))));
    // an INTEGER with no content
    assert!(matches!(
        ASN1Element::from_der(&[0x02, 0x00], 0),
        Err(DerError::UnexpectedEndOfData { pos: 0 })
    ));
    // an unknown tag
    assert!(matches!(ASN1Element::from_der(&[0x01, 0x01, 0x00], 0), Err(DerError::UnknownTag { found: 0x01 })));
}

#[test]
fn nesting_deeper_than_the_limit_is_refused() {
    // 33 nested sequences around a NULL parse; 34 do not
    fn nested(levels: usize) -> ASN1Element {
        let mut e = ASN1Element::Null;
        for _ in 0..levels {
            e = ASN1Element::Sequence(vec![e]);
        }
        e
    }
    let ok = nested(32).to_der().unwrap();
    assert_eq!(ASN1Element::from_der(&ok, 0).unwrap().0, nested(32));
    let too_deep = nested(33).to_der().unwrap();
    assert!(matches!(
        ASN1Element::from_der(&too_deep, 0),
        Err(DerError::MaxDepthExceeded { max: 32, depth: 33 })
    ));
}

#[test]
fn sequence_roundtrip_with_every_type() {
    let elem = ASN1Element::Sequence(vec![
        ASN1Element::Integer(-300),
        ASN1Element::UTF8String("héllo".to_string()),
        ASN1Element::PrintableString("Pint 2".to_string()),
        ASN1Element::OctetString(vec![0, 1, 2, 255]),
        ASN1Element::Null,
        ASN1Element::Sequence(vec![ASN1Element::Integer(7)]),
    ]);
    let der = elem.to_der().unwrap();
    let (decoded, pos) = ASN1Element::from_der(&der, 0).unwrap();
    assert_eq!(decoded, elem);
    assert_eq!(pos, der.len());
    // decoding at an offset inside a larger buffer
    let mut buf = vec![0xaa, 0xbb];
    buf.extend_from_slice(&der);
    buf.push(0xcc);
    let (decoded, pos) = ASN1Element::from_der(&buf, 2).unwrap();
    assert_eq!(decoded, elem);
    assert_eq!(pos, 2 + der.len());
}

#[test]
fn long_form_length_in_element() {
    let elem = ASN1Element::OctetString(vec![7u8; 300]);
    let der = elem.to_der().unwrap();
    assert_eq!(&der[..4], &[0x04, 0x82, 0x01, 0x2c]);
    assert_eq!(ASN1Element::from_der(&der, 0).unwrap().0, elem);
}

#[test]
fn element_tags() {
    assert_eq!(ASN1Element::Integer(1).tag().to_byte(), 0x02);
    assert_eq!(ASN1Element::Null.tag().to_byte(), 0x05);
    assert_eq!(ASN1Element::Sequence(vec![]).tag().to_byte(), 0x30);
    assert_eq!(ASN1Element::OctetString(vec![]).tag().to_byte(), 0x04);
    assert_eq!(ASN1Element::UTF8String(String::new()).tag().to_byte(), 0x0c);
    assert_eq!(ASN1Element::PrintableString(String::new()).tag().to_byte(), 0x13);
}

#[test]
fn accepted_input_reencodes_to_the_same_bytes() {
    // SEQUENCE { INTEGER -129, UTF8String "hé", OCTET STRING 00 ff, NULL,
    //            SEQUENCE { PrintableString "Ok" } }
    let der = vec![
        0x30, 0x15, 0x02, 0x02, 0xff, 0x7f, 0x0c, 0x03, b'h', 0xc3, 0xa9, 0x04, 0x02, 0x00,
        0xff, 0x05, 0x00, 0x30, 0x04, 0x13, 0x02, b'O', b'k',
    ];
    let (elem, end) = ASN1Element::from_der(&der, 0).unwrap();
    assert_eq!(end, der.len());
    assert_eq!(elem.to_der().unwrap(), der);
}

#[test]
fn null_with_content_is_accepted_but_not_reencoded_alike() {
    let der = vec![0x05, 0x01, 0x00];
    let (elem, end) = ASN1Element::from_der(&der, 0).unwrap();
    assert_eq!(end, 3);
    assert_eq!(elem, ASN1Element::Null);
    assert_eq!(elem.to_der().unwrap(), vec![0x05, 0x00]);
}

#[test]
fn empty_contents_decode_to_empty_values() {
    assert_eq!(ASN1Element::from_der(&[0x0c, 0x00], 0).unwrap(), (ASN1Element::UTF8String(String::new()), 2));
    assert_eq!(ASN1Element::from_der(&[0x13, 0x00], 0).unwrap(), (ASN1Element::PrintableString(String::new()), 2));
    assert_eq!(ASN1Element::from_der(&[0x04, 0x00], 0).unwrap(), (ASN1Element::OctetString(vec![]), 2));
    assert_eq!(ASN1Element::from_der(&[0x30, 0x00], 0).unwrap(), (ASN1Element::Sequence(vec![]), 2));
    let e = ASN1Element::Sequence(vec![ASN1Element::UTF8String(String::new()), ASN1Element::Sequence(vec![])]);
    let der = e.to_der().unwrap();
    assert_eq!(der, vec![0x30, 0x04, 0x0c, 0x00, 0x30, 0x00]);
    assert_eq!(ASN1Element::from_der(&der, 0).unwrap(), (e, 6));
}

#[test]
fn clone_copies_nested_elements() {
    let e = ASN1Element::Sequence(vec![ASN1Element::Integer(-5), ASN1Element::OctetString(vec![1, 2])]);
    assert_eq!(e.clone(), e);
}

#[test]
fn written_element_reads_back_among_other_bytes() {
    let e = ASN1Element::Sequence(vec![ASN1Element::Integer(300), ASN1Element::PrintableString("Ok".into())]);
    let d = e.to_der().unwrap();
    let mut buf = vec![0xaa, 0xbb, 0xcc];
    buf.extend_from_slice(&d);
    buf.extend_from_slice(&[0x01, 0x02]);
    assert_eq!(ASN1Element::from_der(&buf, 3).unwrap(), (e, 3 + d.len()));
}
