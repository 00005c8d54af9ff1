use learn_der::asn1::ASN1Element;
use learn_der::errors::ShoppingItemError;
use learn_der::product::Product;
use learn_der::shopping_item_r2::ShoppingItemV2;
use learn_der::shopping_item_r3::ShoppingItemV3;

#[test]
fn test_v3_roundtrip_with_product() {
    let product = Product::new(
        "PROD-001".to_string(),
        Some("Acme Corp".to_string()),
        Some("https://example.com/product/001".to_string()),
        Some(vec![0xff, 0xd8, 0xff, 0xe0]),
        Some("JPEG".to_string()),
    ).unwrap();
    let original = ShoppingItemV3::new(3, "Widget".into(), "each".into(), 5, Some("A nice widget".into()), Some(product)).unwrap();
    let der = original.to_der().unwrap();
    let decoded = ShoppingItemV3::from_der(der).unwrap();
    assert_eq!(original, decoded);
}

#[test]
fn test_v3_roundtrip_without_product() {
    let original = ShoppingItemV3::new(3, "Milk".into(), "L".into(), 2, Some("Organic".into()), None).unwrap();
    let der = original.to_der().unwrap();
    let decoded = ShoppingItemV3::from_der(der).unwrap();
    assert_eq!(original, decoded);
}

#[test]
fn test_v3_roundtrip_with_minimal_product() {
    let product = Product::new("PROD-001".into(), None, None, None, None).unwrap();
    let original = ShoppingItemV3::new(3, "Widget".into(), "each".into(), 1, None, Some(product)).unwrap();
    let der = original.to_der().unwrap();
    let decoded = ShoppingItemV3::from_der(der).unwrap();
    assert_eq!(original, decoded);
}

#[test]
fn test_v3_roundtrip_with_full_product() {
    let product = Product::new(
        "PROD-001".to_string(),
        Some("Acme Corp".to_string()),
        Some("https://example.com/product/001".to_string()),
        Some(vec![0xff, 0xd8, 0xff, 0xe0]),
        Some("JPEG".to_string()),
    ).unwrap();
    let original = ShoppingItemV3::new(3, "Widget".into(), "each".into(), 5, Some("A nice widget".into()), Some(product)).unwrap();
    let der = original.to_der().unwrap();
    let decoded = ShoppingItemV3::from_der(der).unwrap();
    assert_eq!(original, decoded);
}

#[test]
fn test_v3_roundtrip_with_png_product() {
    let product = Product::new(
        "PROD-PNG".into(),
        Some("PNG Supplier".into()),
        Some("https://example.com/png-product".into()),
        Some(vec![0x89, 0x50, 0x4e, 0x47]),
        Some("PNG".into()),
    ).unwrap();
    let original = ShoppingItemV3::new(3, "Image Item".into(), "piece".into(), 1, Some("Has PNG image".into()), Some(product)).unwrap();
    let der = original.to_der().unwrap();
    let decoded = ShoppingItemV3::from_der(der).unwrap();
    assert_eq!(original, decoded);
}

#[test]
fn test_v3_version_field_encoding() {
    let item = ShoppingItemV3::new(3, "Apples".into(), "item".into(), 5, None, None).unwrap();
    let der = item.to_der().unwrap();
    assert_eq!(der[0], 0x30);
    assert_eq!(der[2], 0x02);
    assert_eq!(der[4], 0x03);
}

#[test]
fn test_v3_version_validation_in_new() {
    let result = ShoppingItemV3::new(2, "Milk".into(), "L".into(), 1, None, None);
    assert!(result.is_err());
}

#[test]
fn test_v3_version_validation_in_from_der() {
    let der = vec![
        0x30, 0x0f,
        0x02, 0x01, 0x01,
        0x0c, 0x04, 0x4d, 0x69, 0x6c, 0x6b,
        0x13, 0x01, 0x4c,
        0x02, 0x01, 0x01,
    ];
    let result = ShoppingItemV3::from_der(der);
    assert!(result.is_err());
}

#[test]
fn test_v3_name_too_long_rejected() {
    let name = "a".repeat(256);
    let result = ShoppingItemV3::new(3, name, "L".into(), 1, None, None);
    assert!(result.is_err());
}

#[test]
fn test_v3_description_too_long_rejected() {
    let desc = "d".repeat(65536);
    let result = ShoppingItemV3::new(3, "Milk".into(), "L".into(), 1, Some(desc), None);
    assert!(result.is_err());
}

#[test]
fn test_v3_product_is_nested_sequence() {
    let product = Product::new("PROD-NEST".into(), None, None, None, None).unwrap();
    let item = ShoppingItemV3::new(3, "Item".into(), "each".into(), 1, None, Some(product)).unwrap();
    let der = item.to_der().unwrap();
    let (element, _pos) = ASN1Element::from_der(&der, 0).unwrap();
    if let ASN1Element::Sequence(children) = element {
        assert_eq!(children.len(), 5);
        match &children[4] {
            ASN1Element::Sequence(inner) => {
                assert!(!inner.is_empty());
                match &inner[0] {
                    ASN1Element::UTF8String(s) => assert_eq!(s, "PROD-NEST"),
                    other => panic!("Expected UTF8String for product_id, found {}", other.tag().to_name()),
                }
            }
            other => panic!("Expected SEQUENCE for product, found {}", other.tag().to_name()),
        }
    } else {
        panic!("Expected outer SEQUENCE");
    }
}

#[test]
fn test_v3_from_v2() {
    let v2 = ShoppingItemV2::new(2, "Honey".into(), "jar".into(), 3, Some("Raw".into())).unwrap();
    let v3 = ShoppingItemV3::from_v2(&v2);
    assert_eq!(v3.version, 3);
    assert_eq!(v3.name, "Honey");
    assert_eq!(v3.unit, "jar");
    assert_eq!(v3.quantity, 3);
    assert_eq!(v3.description, Some("Raw".into()));
    assert_eq!(v3.product, None);
}

#[test]
fn test_v3_from_v2_to_der_roundtrip() {
    let v2 = ShoppingItemV2::new(2, "Eggs".into(), "dozen".into(), 2, Some("Free-range".into())).unwrap();
    let v3 = ShoppingItemV3::from_v2(&v2);
    let der = v3.to_der().unwrap();
    let v3_decoded = ShoppingItemV3::from_der(der).unwrap();
    assert_eq!(v3, v3_decoded);
}

#[test]
fn v3_product_without_description_roundtrip() {
    let product = Product::new("P".into(), Some("Acme".into()), None, None, Some("PNG".into())).unwrap();
    let item = ShoppingItemV3::new(3, "Item".into(), "each".into(), 4, None, Some(product)).unwrap();
    let der = item.to_der().unwrap();
    assert_eq!(ShoppingItemV3::from_der(der).unwrap(), item);
}

#[test]
fn v3_errors() {
    fn der_err<T: std::fmt::Debug>(r: Result<T, ShoppingItemError>) -> String {
        match r {
            Err(ShoppingItemError::DerError { der_error }) => der_error,
            other => panic!("unexpected {:?}", other),
        }
    }
    assert_eq!(der_err(ShoppingItemV3::new(4, "a".into(), "b".into(), 1, None, None)), "Expected version 3, got 4");
    assert_eq!(der_err(ShoppingItemV3::from_der(vec![0x30, 0x03, 0x02, 0x01, 0x03])), "SEQUENCE too short");
    // a product that breaks the product rules is refused by new
    let bad = Product { product_id: String::new(), provider: None, product_url: None, image_data: None, image_type: None };
    match ShoppingItemV3::new(3, "a".into(), "b".into(), 1, None, Some(bad)) {
        Err(ShoppingItemError::InputError { input_error }) => assert_eq!(input_error, "product_id must not be empty"),
        other => panic!("unexpected {:?}", other),
    }
    // a unit outside the PrintableString alphabet cannot be written
    let item = ShoppingItemV3::new(3, "a".into(), "b/c".into(), 1, None, None).unwrap();
    assert_eq!(
        der_err(item.to_der()),
        "Failed to encode ShoppingItemV3 to DER: Invalid PrintableString: contains non-allowed characters"
    );
    // a complete item followed by one more byte
    assert_eq!(
        der_err(ShoppingItemV3::from_der(vec![
            0x30, 0x0c, 0x02, 0x01, 0x03, 0x0c, 0x01, 0x4d, 0x13, 0x01, 0x4c, 0x02, 0x01, 0x01, 0x00
        ])),
        "Trailing data after outer SEQUENCE"
    );
    // after a description, the sixth element must be a SEQUENCE
    let der = vec![
        0x30, 0x11,
        0x02, 0x01, 0x03,
        0x0c, 0x01, b'a',
        0x13, 0x01, b'b',
        0x02, 0x01, 0x01,
        0x0c, 0x01, b'd',
        0x05, 0x00,
    ];
    assert_eq!(der_err(ShoppingItemV3::from_der(der)), "Expected SEQUENCE for product, found Null(0x5)");
}

#[test]
fn v3_product_with_empty_fields_roundtrip() {
    let p = Product::new("P".into(), Some(String::new()), Some(String::new()), Some(vec![]), None).unwrap();
    let item = ShoppingItemV3::new(3, "a".into(), "b".into(), 1, None, Some(p)).unwrap();
    let der = item.to_der().unwrap();
    assert_eq!(ShoppingItemV3::from_der(der).unwrap(), item);
}
