use learn_der::errors::ShoppingItemError;
use learn_der::product::Product;

#[test]
fn test_product_roundtrip_all_fields() {
    let original = Product::new(
        "PROD-001".to_string(),
        Some("Acme Corp".to_string()),
        Some("https://example.com/product/001".to_string()),
        Some(vec![0xff, 0xd8, 0xff, 0xe0]),
        Some("JPEG".to_string()),
    )
    .unwrap();

    let der = original.to_der().unwrap();
    let decoded = Product::from_der(der).unwrap();
    assert_eq!(original, decoded);
}

#[test]
fn test_product_roundtrip_minimal() {
    let original = Product::new("test-id".to_string(), None, None, None, None).unwrap();
    let der = original.to_der().unwrap();
    let decoded = Product::from_der(der).unwrap();
    assert_eq!(original, decoded);
}

#[test]
fn test_product_roundtrip_with_provider() {
    let original = Product::new(
        "PROD-002".to_string(),
        Some("Provider Inc".to_string()),
        None,
        None,
        None,
    )
    .unwrap();

    let der = original.to_der().unwrap();
    let decoded = Product::from_der(der).unwrap();
    assert_eq!(original, decoded);
}

#[test]
fn test_product_roundtrip_with_url() {
    let original = Product::new(
        "PROD-003".to_string(),
        None,
        Some("https://example.com/item".to_string()),
        None,
        None,
    )
    .unwrap();

    let der = original.to_der().unwrap();
    let decoded = Product::from_der(der).unwrap();
    assert_eq!(original, decoded);
}

#[test]
fn test_product_roundtrip_with_jpeg_image() {
    let original = Product::new(
        "PROD-004".to_string(),
        None,
        None,
        Some(vec![0xff, 0xd8, 0xff, 0xe0]),
        Some("JPEG".to_string()),
    )
    .unwrap();

    let der = original.to_der().unwrap();
    let decoded = Product::from_der(der).unwrap();
    assert_eq!(original, decoded);
}

#[test]
fn test_product_roundtrip_with_png_image() {
    let original = Product::new(
        "PROD-005".to_string(),
        None,
        None,
        Some(vec![0x89, 0x50, 0x4e, 0x47]),
        Some("PNG".to_string()),
    )
    .unwrap();

    let der = original.to_der().unwrap();
    let decoded = Product::from_der(der).unwrap();
    assert_eq!(original, decoded);
}

#[test]
fn test_product_id_empty_rejected() {
    let result = Product::new("".to_string(), None, None, None, None);
    assert!(result.is_err());
}

#[test]
fn test_product_id_too_long_rejected() {
    let long_id = "a".repeat(256);
    let result = Product::new(long_id, None, None, None, None);
    assert!(result.is_err());
}

#[test]
fn test_product_invalid_image_type() {
    let result = Product::new(
        "PROD-006".to_string(),
        None,
        None,
        None,
        Some("BMP".to_string()),
    );
    assert!(result.is_err());
}

#[test]
fn test_product_invalid_image_type_jpg() {
    let result = Product::new(
        "PROD-007".to_string(),
        None,
        None,
        None,
        Some("JPG".to_string()),
    );
    assert!(result.is_err());
}

#[test]
fn test_product_image_too_large_rejected() {
    let result = Product::new(
        "PROD-008".to_string(),
        None,
        None,
        Some(vec![0u8; 10_000_001]),
        None,
    );
    assert!(result.is_err());
}

#[test]
fn test_product_provider_too_long_rejected() {
    let long_provider = "p".repeat(256);
    let result = Product::new(
        "PROD-009".to_string(),
        Some(long_provider),
        None,
        None,
        None,
    );
    assert!(result.is_err());
}

#[test]
fn test_product_url_too_long_rejected() {
    let long_url = "u".repeat(2049);
    let result = Product::new(
        "PROD-010".to_string(),
        None,
        Some(long_url),
        None,
        None,
    );
    assert!(result.is_err());
}

#[test]
fn test_product_to_der_structure() {
    let product = Product::new("test-id".to_string(), None, None, None, None).unwrap();
    let der = product.to_der().unwrap();

    // Should start with 0x30 (SEQUENCE tag)
    assert_eq!(der[0], 0x30);

    // Next should be 0x0c (UTF8String tag for product_id)
    assert_eq!(der[2], 0x0c);
}

fn input_message(r: Result<Product, ShoppingItemError>) -> String {
    match r {
        Err(ShoppingItemError::InputError { input_error }) => input_error,
        other => panic!("expected an input error, got {:?}", other),
    }
}

#[test]
fn product_error_messages() {
    assert_eq!(
        input_message(Product::new(String::new(), None, None, None, None)),
        "product_id must not be empty"
    );
    assert_eq!(
        input_message(Product::new("x".repeat(256), None, None, None, None)),
        "product_id too long, max 255"
    );
    assert_eq!(
        input_message(Product::new("id".into(), Some("p".repeat(256)), None, None, None)),
        "provider too long, max 255"
    );
    assert_eq!(
        input_message(Product::new("id".into(), None, Some("u".repeat(2049)), None, None)),
        "product_url too long, max 2048"
    );
    assert_eq!(
        input_message(Product::new("id".into(), None, None, Some(vec![0; 10_000_001]), None)),
        "image_data too large, max 10000000 bytes"
    );
    assert_eq!(
        input_message(Product::new("id".into(), None, None, None, Some("JPEGJPEGJPEG".into()))),
        "image_type too long, max 10"
    );
    assert_eq!(
        input_message(Product::new("id".into(), None, None, None, Some("GIF".into()))),
        "image_type must be JPEG or PNG, got 'GIF'"
    );
}

#[test]
fn product_limits_are_inclusive() {
    assert!(Product::new("a".repeat(255), Some("p".repeat(255)), Some("u".repeat(2048)), Some(vec![1; 10_000_000]), Some("PNG".into())).is_ok());
    // byte length, not characters: 128 two-byte characters are 256 bytes
    assert!(Product::new("é".repeat(128), None, None, None, None).is_err());
}

#[test]
fn product_der_fixed_layout() {
    let p = Product::new("id".into(), None, None, None, None).unwrap();
    assert_eq!(
        p.to_der().unwrap(),
        vec![0x30, 0x0c, 0x0c, 0x02, b'i', b'd', 0x05, 0x00, 0x05, 0x00, 0x05, 0x00, 0x05, 0x00]
    );
}

#[test]
fn product_from_der_errors() {
    // not a SEQUENCE
    match Product::from_der(vec![0x05, 0x00]) {
        Err(ShoppingItemError::DerError { der_error }) => assert_eq!(der_error, "Expected SEQUENCE, found Null(0x5)"),
        other => panic!("unexpected {:?}", other),
    }
    // bad DER
    match Product::from_der(vec![0x30]) {
        Err(ShoppingItemError::DerError { der_error }) => assert_eq!(
            der_error,
            "Failed to parse outer SEQUENCE: Unexpected end of data at position 1"
        ),
        other => panic!("unexpected {:?}", other),
    }
    // first element not a UTF8String
    match Product::from_der(vec![0x30, 0x02, 0x05, 0x00]) {
        Err(ShoppingItemError::DerError { der_error }) => {
            assert_eq!(der_error, "Expected UTF8String for product_id, found Null(0x5)")
        }
        other => panic!("unexpected {:?}", other),
    }
    // an optional field of the wrong type is refused
    match Product::from_der(vec![0x30, 0x07, 0x0c, 0x02, b'i', b'd', 0x02, 0x01, 0x05]) {
        Err(ShoppingItemError::DerError { der_error }) => assert_eq!(
            der_error,
            "Unexpected tag in optional field: expected UTF8String(0xc), found Integer(0x2)"
        ),
        other => panic!("unexpected {:?}", other),
    }
    // NULL in an optional field is an absent field
    let p = Product::from_der(vec![0x30, 0x06, 0x0c, 0x02, b'i', b'd', 0x05, 0x00]).unwrap();
    assert_eq!(p, Product::new("id".into(), None, None, None, None).unwrap());
    // an image type of the wrong type is refused
    match Product::from_der(vec![0x30, 0x0e, 0x0c, 0x02, b'i', b'd', 0x05, 0x00, 0x05, 0x00, 0x05, 0x00, 0x0c, 0x02, b'P', b'N']) {
        Err(ShoppingItemError::DerError { der_error }) => assert_eq!(
            der_error,
            "Unexpected tag in optional field: expected PrintableString(0x13), found UTF8String(0xc)"
        ),
        other => panic!("unexpected {:?}", other),
    }
}

#[test]
fn product_to_der_with_unprintable_image_type() {
    let p = Product {
        product_id: "id".into(),
        provider: None,
        product_url: None,
        image_data: None,
        image_type: Some("J/P".into()),
    };
    match p.to_der() {
        Err(ShoppingItemError::DerError { der_error }) => assert_eq!(
            der_error,
            "Failed to encode Product to DER: Invalid PrintableString: contains non-allowed characters"
        ),
        other => panic!("unexpected {:?}", other),
    }
}

#[test]
fn empty_optional_fields_read_back() {
    let p = Product::new("id".into(), Some(String::new()), Some(String::new()), Some(vec![]), None).unwrap();
    let der = p.to_der().unwrap();
    assert_eq!(Product::from_der(der).unwrap(), p);
}

#[test]
fn product_trailing_data_is_refused() {
    let p = Product::new("id".into(), None, None, None, None).unwrap();
    let mut der = p.to_der().unwrap();
    der.push(0x00);
    match Product::from_der(der) {
        Err(ShoppingItemError::DerError { der_error }) => {
            assert_eq!(der_error, "Trailing data after outer SEQUENCE")
        }
        other => panic!("unexpected {:?}", other),
    }
}
