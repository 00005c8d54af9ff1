use learn_der::asn1::ASN1Element;
use learn_der::errors::ShoppingItemError;
use learn_der::helpers::{base64_block, base64_frame, item_details};
use learn_der::shopping_item::ShoppingItem;

// DER fixture: ShoppingItem { name: "Milk", unit: "unit_test_123456", quantity: 2, description: Some("Organic, 1 gallon") }
const DER_WITH_DESCRIPTION: &[u8] = &[
    0x30, 0x2e, // SEQUENCE (length 46)
    0x0c, 0x04, // UTF8String (length 4): "Milk"
    0x4d, 0x69, 0x6c, 0x6b,
    0x04, 0x10, // OctetString (length 16): "unit_test_123456"
    0x75, 0x6e, 0x69, 0x74, 0x5f, 0x74, 0x65, 0x73, 0x74, 0x5f, 0x31, 0x32, 0x33, 0x34, 0x35, 0x36,
    0x02, 0x01, // INTEGER (length 1): 2
    0x02,
    0x0c, 0x11, // UTF8String (length 17): "Organic, 1 gallon"
    0x4f, 0x72, 0x67, 0x61, 0x6e, 0x69, 0x63, 0x2c, 0x20, 0x31, 0x20, 0x67, 0x61, 0x6c, 0x6c, 0x6f, 0x6e,
];

// DER fixture: ShoppingItem { name: "Bread", unit: "unit_test_123456", quantity: 1, description: None }
const DER_WITHOUT_DESCRIPTION: &[u8] = &[
    0x30, 0x1c, // SEQUENCE (length 28)
    0x0c, 0x05, // UTF8String (length 5): "Bread"
    0x42, 0x72, 0x65, 0x61, 0x64,
    0x04, 0x10, // OctetString (length 16): "unit_test_123456"
    0x75, 0x6e, 0x69, 0x74, 0x5f, 0x74, 0x65, 0x73, 0x74, 0x5f, 0x31, 0x32, 0x33, 0x34, 0x35, 0x36,
    0x02, 0x01, // INTEGER (length 1): 1
    0x01,
];

#[test]
fn test_round_trip() {
    let unit = "unit_test_123456".to_string();
    let original = ShoppingItem::new(
        "Milk".to_string(),
        unit,
        2,
        Some("Organic, 1 gallon".to_string()),
    )
    .unwrap();

    let der = original.to_der();
    assert_eq!(&der, DER_WITH_DESCRIPTION);

    let parsed = ShoppingItem::from_der(DER_WITH_DESCRIPTION.to_vec()).unwrap();
    let expected = ShoppingItem::new(
        "Milk".to_string(),
        "unit_test_123456".to_string(),
        2,
        Some("Organic, 1 gallon".to_string()),
    )
    .unwrap();
    assert_eq!(parsed, expected);

    let parsed_roundtrip = ShoppingItem::from_der(der).unwrap();
    assert_eq!(original, parsed_roundtrip);
}

#[test]
fn test_without_optional_description() {
    let original = ShoppingItem::new(
        "Bread".to_string(),
        "unit_test_123456".to_string(),
        1,
        None,
    )
    .unwrap();

    let der = original.to_der();
    assert_eq!(&der, DER_WITHOUT_DESCRIPTION);

    let parsed = ShoppingItem::from_der(DER_WITHOUT_DESCRIPTION.to_vec()).unwrap();
    assert_eq!(parsed, original);
    assert!(parsed.description.is_none());

    let parsed_roundtrip = ShoppingItem::from_der(der).unwrap();
    assert_eq!(original, parsed_roundtrip);
}

#[test]
fn test_asn1_integer_encoding() {
    let quantity_element = ASN1Element::Integer(2);
    assert_eq!(quantity_element.to_der().unwrap(), vec![0x02, 0x01, 0x02]);
}

#[test]
fn short_unit_reads_back_padded() {
    let item = ShoppingItem::new("Milk".into(), "L".into(), 2, None).unwrap();
    let parsed = ShoppingItem::from_der(item.to_der()).unwrap();
    assert_eq!(parsed.unit, "L\0\0\0\0\0\0\0\0\0\0\0\0\0\0\0");
    assert_eq!(parsed.name, "Milk");
    assert_eq!(parsed.quantity, 2);
}

#[test]
fn long_unit_is_cut_to_sixteen_bytes() {
    let item = ShoppingItem::new("Milk".into(), "abcdefghijklmnopqrst".into(), 2, None).unwrap();
    let parsed = ShoppingItem::from_der(item.to_der()).unwrap();
    assert_eq!(parsed.unit, "abcdefghijklmnop");
}

#[test]
fn item_new_limits() {
    assert!(ShoppingItem::new("a".repeat(255), "L".into(), 1, Some("d".repeat(65535))).is_ok());
    match ShoppingItem::new("a".repeat(256), "L".into(), 1, None) {
        Err(ShoppingItemError::InputError { input_error }) => assert_eq!(input_error, "Name too long, max 255"),
        other => panic!("unexpected {:?}", other),
    }
    match ShoppingItem::new("a".into(), "L".into(), 1, Some("d".repeat(65536))) {
        Err(ShoppingItemError::InputError { input_error }) => {
            assert_eq!(input_error, "Description too long, max 65535")
        }
        other => panic!("unexpected {:?}", other),
    }
}

#[test]
fn item_from_der_errors() {
    let der_err = |data: Vec<u8>| match ShoppingItem::from_der(data) {
        Err(ShoppingItemError::DerError { der_error }) => der_error,
        other => panic!("unexpected {:?}", other),
    };
    assert_eq!(der_err(vec![0x30, 0x02, 0x05, 0x00]), "Expected UTF8String for name, found Null(0x5)");
    // negative quantity
    assert_eq!(
        der_err(vec![0x30, 0x09, 0x0c, 0x01, b'a', 0x04, 0x01, b'L', 0x02, 0x01, 0xff]),
        "Quantity must be non-negative"
    );
    // unit that is not UTF-8
    assert_eq!(
        der_err(vec![0x30, 0x09, 0x0c, 0x01, b'a', 0x04, 0x01, 0xff, 0x02, 0x01, 0x01]),
        "Unit contains invalid UTF-8"
    );
    // description of the wrong type
    assert_eq!(
        der_err(vec![0x30, 0x0b, 0x0c, 0x01, b'a', 0x04, 0x01, b'L', 0x02, 0x01, 0x01, 0x05, 0x00]),
        "Expected UTF8String for description, found Null(0x5)"
    );
    assert_eq!(der_err(vec![0x30, 0x00]), "SEQUENCE is empty");
    // a SEQUENCE that ends after the name, or after the unit
    assert_eq!(der_err(vec![0x30, 0x06, 0x0c, 0x04, 0x4d, 0x69, 0x6c, 0x6b]), "SEQUENCE too short");
    assert_eq!(der_err(vec![0x30, 0x06, 0x0c, 0x01, b'a', 0x04, 0x01, b'L']), "SEQUENCE too short");
    // bytes after the SEQUENCE
    assert_eq!(
        der_err(vec![0x30, 0x09, 0x0c, 0x01, b'a', 0x04, 0x01, b'L', 0x02, 0x01, 0x01, 0x00]),
        "Trailing data after outer SEQUENCE"
    );
}

#[test]
fn base64_block_holds_the_encoding() {
    assert_eq!(base64_block(b"hi"), "\n--- Base64 (Copy this for ASN.1 viewers) ---\naGk=\n");
    assert_eq!(base64_block(&[0x30, 0x00]), "\n--- Base64 (Copy this for ASN.1 viewers) ---\nMAA=\n");
    assert_eq!(base64_block(&[]), "\n--- Base64 (Copy this for ASN.1 viewers) ---\n\n");
}

#[test]
fn item_details_lines() {
    let item = ShoppingItem::new("Milk".into(), "L".into(), 12, Some("Organic".into())).unwrap();
    assert_eq!(
        item_details(&item),
        "\n--- Parsed Shopping Item ---\nName:     Milk\nUnit:     L\nQuantity: 12\nDesc:     Organic\n------------------------------\n"
    );
    let item = ShoppingItem::new("Bread".into(), "loaf".into(), 0, None).unwrap();
    assert_eq!(
        item_details(&item),
        "\n--- Parsed Shopping Item ---\nName:     Bread\nUnit:     loaf\nQuantity: 0\nDesc:     (None)\n------------------------------\n"
    );
}

#[test]
fn base64_frame_wraps_the_text() {
    assert_eq!(base64_frame("MAA="), "\n--- Base64 (Copy this for ASN.1 viewers) ---\nMAA=\n");
}

#[test]
fn base64_block_on_longer_input() {
    assert_eq!(base64_block(b"Man"), "\n--- Base64 (Copy this for ASN.1 viewers) ---\nTWFu\n");
    assert_eq!(base64_block(b"hello?>"), "\n--- Base64 (Copy this for ASN.1 viewers) ---\naGVsbG8/Pg==\n");
}
