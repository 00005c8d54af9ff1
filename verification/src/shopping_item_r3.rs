//! The third shopping-item wire format: the second, plus an optional
//! reference to a specific product as a nested SEQUENCE.
use vstd::prelude::*;
use vstd::utf8::encode_utf8;

use crate::asn1::{
    ASN1Element, Asn1Value, encoding, encodable, printable, values_of, value_of, lemma_values_of,
    decodable, law_der_roundtrip, lemma_encode_all_push, lemma_length_bytes_len, encode_all, content,
    element_at, lemma_encode_all_prepend,
};
use crate::asn1_int::int_bytes;
use crate::der::MAX_PARSE_SIZE;
use crate::errors::{DerFault, ShoppingItemError, ItemFault, fault_message};
use crate::product::{
    Product, ProductView, product_fault, product_value, product_decode,
    lemma_product_decodable, law_product_roundtrip,
};
use crate::record::{
    text_len, opt_text, clone_text, clone_opt_text, clone_opt_bytes, byte_len, der_failure,
    outer_children, read_outer_sequence,
};
use crate::shopping_item::{
    text_fault, quantity_of, expected_fault, check_text, quantity_from, expected_error, der_message,
    input_message, MAX_NAME_LEN,
};
use crate::text::decimal;
use crate::shopping_item_r2::{
    ShoppingItemV2, ItemV2View, v2_checked, v2_value, version_fault, version_error, version_of, version_from,
    lemma_small_integer_decodable,
};

verus! {

/// The version that this format carries.
pub const EXPECTED_VERSION: u32 = 3;

#[derive(Debug, Clone, PartialEq)]
pub struct ShoppingItemV3 {
    pub version: u32,
    pub name: String,
    pub unit: String,
    pub quantity: u64,
    pub description: Option<String>,
    pub product: Option<Product>,
}

/// The mathematical value of a [`ShoppingItemV3`].
pub struct ItemV3View {
    pub version: u32,
    pub name: Seq<char>,
    pub unit: Seq<char>,
    pub quantity: u64,
    pub description: Option<Seq<char>>,
    pub product: Option<ProductView>,
}

/// The value of an optional product.
pub open spec fn opt_product(o: Option<Product>) -> Option<ProductView> {
    match o {
        Some(p) => Some(p@),
        None => None,
    }
}

impl View for ShoppingItemV3 {
    type V = ItemV3View;

    open spec fn view(&self) -> ItemV3View {
        ItemV3View {
            version: self.version,
            name: self.name@,
            unit: self.unit@,
            quantity: self.quantity,
            description: opt_text(self.description),
            product: opt_product(self.product),
        }
    }
}

/// What `ShoppingItemV3::new` answers for its arguments: the version must be
/// 3, the name and description within their limits, and the product, when
/// there is one, accepted by `Product::new`.
pub open spec fn v3_checked(v: ItemV3View) -> Result<ItemV3View, ItemFault> {
    if v.version != EXPECTED_VERSION {
        Err(version_fault(EXPECTED_VERSION, v.version))
    } else {
        match text_fault(v.name, v.description) {
            Some(m) => Err(ItemFault::InputError(m)),
            None => match v.product {
                Some(p) => match product_fault(p) {
                    Some(m) => Err(ItemFault::InputError(m)),
                    None => Ok(v),
                },
                None => Ok(v),
            },
        }
    }
}

/// The version, name, unit, quantity and (when present) description of an
/// item, as ASN.1 values in wire order.
pub open spec fn v3_fields(v: ItemV3View) -> Seq<Asn1Value> {
    let fields = seq![
        Asn1Value::Integer(v.version as int),
        Asn1Value::UTF8String(v.name),
        Asn1Value::PrintableString(v.unit),
        Asn1Value::Integer(v.quantity as int),
    ];
    match v.description {
        Some(d) => fields.push(Asn1Value::UTF8String(d)),
        None => fields,
    }
}

/// The DER form of a SEQUENCE of the values, or the error for one that
/// cannot be written.
pub open spec fn v3_finish(cs: Seq<Asn1Value>) -> Result<Seq<u8>, ItemFault> {
    if encodable(Asn1Value::Sequence(cs)) {
        Ok(encoding(Asn1Value::Sequence(cs)))
    } else {
        Err(
            ItemFault::DerError(
                "Failed to encode ShoppingItemV3 to DER: "@ + fault_message(DerFault::InvalidPrintableString),
            ),
        )
    }
}

/// What `ShoppingItemV3::to_der` answers: the fields, then the product's DER
/// form read back as an element, in one SEQUENCE.
pub open spec fn v3_encode(v: ItemV3View) -> Result<Seq<u8>, ItemFault> {
    match v.product {
        None => v3_finish(v3_fields(v)),
        Some(p) => if !encodable(product_value(p)) {
            Err(
                ItemFault::DerError(
                    "Failed to encode Product to DER: "@ + fault_message(DerFault::InvalidPrintableString),
                ),
            )
        } else {
            match element_at(encoding(product_value(p)), 0, 0) {
                Err(f) => Err(
                    ItemFault::DerError(
                        "Failed to parse product DER back into ASN1Element: "@ + fault_message(f),
                    ),
                ),
                Ok((pv, _)) => v3_finish(v3_fields(v).push(pv)),
            }
        },
    }
}

/// The product held by a nested SEQUENCE: it is written back to DER and read
/// as a product.
pub open spec fn product_in(pv: Asn1Value) -> Result<Option<ProductView>, ItemFault> {
    if !encodable(pv) {
        Err(
            ItemFault::DerError(
                "Failed to encode nested product SEQUENCE: "@ + fault_message(DerFault::InvalidPrintableString),
            ),
        )
    } else {
        match product_decode(encoding(pv)) {
            Ok(p) => Ok(Some(p)),
            Err(e) => Err(e),
        }
    }
}

/// The description after the quantity: a UTF8String at index 4. With more
/// than five elements it must be there; with exactly five, an element of
/// another type there is taken as the product instead.
pub open spec fn v3_description(cs: Seq<Asn1Value>) -> Result<Option<Seq<char>>, ItemFault> {
    if cs.len() > 5 {
        match cs[4] {
            Asn1Value::UTF8String(d) => Ok(Some(d)),
            other => Err(expected_fault("UTF8String for description"@, other)),
        }
    } else if cs.len() == 5 {
        match cs[4] {
            Asn1Value::UTF8String(d) => Ok(Some(d)),
            _ => Ok(None),
        }
    } else {
        Ok(None)
    }
}

/// The product after the description (or after the quantity when there is
/// no description), which must be a SEQUENCE when present.
pub open spec fn v3_product(cs: Seq<Asn1Value>, has_description: bool) -> Result<Option<ProductView>, ItemFault> {
    let idx: int = if has_description {
        5
    } else {
        4
    };
    if cs.len() > idx {
        match cs[idx] {
            Asn1Value::Sequence(inner) => product_in(Asn1Value::Sequence(inner)),
            other => Err(expected_fault("SEQUENCE for product"@, other)),
        }
    } else {
        Ok(None)
    }
}

/// What `ShoppingItemV3::from_der` answers once the version, name, unit and
/// quantity are read.
pub open spec fn v3_decode_tail(
    cs: Seq<Asn1Value>,
    version: u32,
    name: Seq<char>,
    unit: Seq<char>,
    quantity: u64,
) -> Result<ItemV3View, ItemFault> {
    match v3_description(cs) {
        Err(e) => Err(e),
        Ok(description) => match v3_product(cs, description is Some) {
            Err(e) => Err(e),
            Ok(product) => v3_checked(ItemV3View { version, name, unit, quantity, description, product }),
        },
    }
}

/// What `ShoppingItemV3::from_der` answers for `data`.
pub open spec fn v3_decode(data: Seq<u8>) -> Result<ItemV3View, ItemFault> {
    match outer_children(data) {
        Err(e) => Err(e),
        Ok(cs) => if cs.len() < 4 {
            Err(ItemFault::DerError("SEQUENCE too short"@))
        } else {
            match cs[0] {
                Asn1Value::Integer(vv) => match version_of(vv) {
                    Err(e) => Err(e),
                    Ok(version) => if version != EXPECTED_VERSION {
                        Err(version_fault(EXPECTED_VERSION, version))
                    } else {
                        match cs[1] {
                            Asn1Value::UTF8String(name) => if text_len(name) > MAX_NAME_LEN {
                                Err(ItemFault::InputError("Name too long, max 255"@))
                            } else {
                                match cs[2] {
                                    Asn1Value::PrintableString(unit) => match cs[3] {
                                        Asn1Value::Integer(q) => match quantity_of(q) {
                                            Err(e) => Err(e),
                                            Ok(quantity) => v3_decode_tail(cs, version, name, unit, quantity),
                                        },
                                        other => Err(expected_fault("INTEGER for quantity"@, other)),
                                    },
                                    other => Err(expected_fault("PrintableString for unit"@, other)),
                                }
                            },
                            other => Err(expected_fault("UTF8String for name"@, other)),
                        }
                    },
                },
                other => Err(expected_fault("INTEGER for version"@, other)),
            }
        },
    }
}

/// The view of a third-format result.
pub open spec fn v3_result(r: Result<ShoppingItemV3, ShoppingItemError>) -> Result<ItemV3View, ItemFault> {
    match r {
        Ok(i) => Ok(i@),
        Err(e) => Err(e@),
    }
}

/// The view of an encoding result.
pub open spec fn bytes_result(r: Result<Vec<u8>, ShoppingItemError>) -> Result<Seq<u8>, ItemFault> {
    match r {
        Ok(b) => Ok(b@),
        Err(e) => Err(e@),
    }
}

/// The ASN.1 value written for an item whose product reads back: its fields,
/// then the product's value.
pub open spec fn v3_value(v: ItemV3View) -> Asn1Value {
    match v.product {
        Some(p) => Asn1Value::Sequence(v3_fields(v).push(product_value(p))),
        None => Asn1Value::Sequence(v3_fields(v)),
    }
}

/// The item is accepted by `ShoppingItemV3::new`, its unit is a valid
/// PrintableString, and its content fits the decoder's size limit.
pub open spec fn v3_readable(v: ItemV3View) -> bool {
    &&& v3_checked(v) is Ok
    &&& printable(encode_utf8(v.unit))
    &&& content(v3_value(v)).len() <= MAX_PARSE_SIZE
}

/// Writing a readable third-format item succeeds, and reading the bytes
/// back gives the same item.
#[verifier::rlimit(40)]
pub proof fn law_v3_roundtrip(v: ItemV3View)
    requires
        v3_readable(v),
    ensures
        v3_encode(v) == Ok::<Seq<u8>, ItemFault>(encoding(v3_value(v))),
        v3_decode(encoding(v3_value(v))) == Ok::<ItemV3View, ItemFault>(v),
{
    let a = Asn1Value::Integer(v.version as int);
    let b = Asn1Value::UTF8String(v.name);
    let c = Asn1Value::PrintableString(v.unit);
    let d = Asn1Value::Integer(v.quantity as int);
    lemma_length_bytes_len(text_len(v.name));
    lemma_small_integer_decodable(v.version as int);
    lemma_small_integer_decodable(v.quantity as int);
    let s0 = Seq::<Asn1Value>::empty();
    assert(encode_all(s0) == Seq::<u8>::empty());
    assert(crate::asn1::all_decodable(s0, 1));
    assert(crate::asn1::all_encodable(s0));
    lemma_encode_all_push(s0, a, 1);
    lemma_encode_all_push(seq![a], b, 1);
    lemma_encode_all_push(seq![a, b], c, 1);
    lemma_encode_all_push(seq![a, b, c], d, 1);
    assert(s0.push(a) =~= seq![a]);
    assert(seq![a].push(b) =~= seq![a, b]);
    assert(seq![a, b].push(c) =~= seq![a, b, c]);
    assert(seq![a, b, c].push(d) =~= seq![a, b, c, d]);
    let fields = v3_fields(v);
    if v.description is Some {
        let e = Asn1Value::UTF8String(v.description->0);
        lemma_length_bytes_len(text_len(v.description->0));
        lemma_encode_all_push(seq![a, b, c, d], e, 1);
    }
    let cs = match v.product {
        Some(p) => fields.push(product_value(p)),
        None => fields,
    };
    if v.product is Some {
        let p = v.product->0;
        let pv = product_value(p);
        lemma_product_decodable(p, 0);
        law_der_roundtrip(pv);
        lemma_product_decodable(p, 1);
        lemma_encode_all_push(fields, pv, 1);
        law_product_roundtrip(p);
        assert(cs[cs.len() - 1] == pv);
    }
    assert(crate::asn1::all_decodable(cs, 1));
    assert(crate::asn1::all_encodable(cs));
    assert(text_len(v.unit) <= MAX_PARSE_SIZE);
    assert(decodable(v3_value(v), 0));
    law_der_roundtrip(v3_value(v));
    assert(outer_children(encoding(v3_value(v))) == Ok::<Seq<Asn1Value>, ItemFault>(cs));
}

/// The third-format item that `ShoppingItemV3::from_v2` makes of a
/// second-format item: version 3, the same fields, and no product.
pub open spec fn upgraded(v: ItemV2View) -> ItemV3View {
    ItemV3View {
        version: EXPECTED_VERSION,
        name: v.name,
        unit: v.unit,
        quantity: v.quantity,
        description: v.description,
        product: None,
    }
}

/// A second-format item that reads back from its own DER form (the
/// conditions of `law_v2_roundtrip`), upgraded by `ShoppingItemV3::from_v2`,
/// is written in the third format and read back unchanged.
pub proof fn law_upgrade_roundtrip(v: ItemV2View)
    requires
        v2_checked(v) is Ok,
        printable(encode_utf8(v.unit)),
        content(v2_value(v)).len() <= MAX_PARSE_SIZE,
    ensures
        v3_encode(upgraded(v)) == Ok::<Seq<u8>, ItemFault>(encoding(v3_value(upgraded(v)))),
        v3_decode(encoding(v3_value(upgraded(v)))) == Ok::<ItemV3View, ItemFault>(upgraded(v)),
{
    let u = upgraded(v);
    let a2 = Asn1Value::Integer(v.version as int);
    let a3 = Asn1Value::Integer(EXPECTED_VERSION as int);
    let b = Asn1Value::UTF8String(v.name);
    let c = Asn1Value::PrintableString(v.unit);
    let d = Asn1Value::Integer(v.quantity as int);
    assert(int_bytes(2) =~= seq![2u8]);
    assert(int_bytes(3) =~= seq![3u8]);
    assert(encoding(a2).len() == encoding(a3).len());
    let rest = seq![b, c, d];
    let tail = match v.description {
        Some(e) => rest.push(Asn1Value::UTF8String(e)),
        None => rest,
    };
    lemma_encode_all_prepend(a2, tail);
    lemma_encode_all_prepend(a3, tail);
    assert(seq![a2] + rest =~= seq![a2, b, c, d]);
    assert(seq![a3] + rest =~= seq![a3, b, c, d]);
    if v.description is Some {
        let e = Asn1Value::UTF8String(v.description->0);
        assert(seq![a2] + tail =~= seq![a2, b, c, d].push(e));
        assert(seq![a3] + tail =~= seq![a3, b, c, d].push(e));
    }
    assert(content(v3_value(u)).len() == content(v2_value(v)).len());
    law_v3_roundtrip(u);
}

/// A third-format item is accepted by `ShoppingItemV3::new` exactly when its
/// version is 3, its name has at most 255 bytes, its description, if any, at
/// most 65535 bytes, and its product, if any, is one `Product::new` accepts;
/// what is accepted is returned unchanged.
pub proof fn law_v3_new_accepts(v: ItemV3View)
    ensures
        v3_checked(v) is Ok <==> (v.version == 3 && text_len(v.name) <= 255 && (v.description is Some
            ==> text_len(v.description->0) <= 65535) && (v.product is Some ==> product_fault(
            v.product->0,
        ) is None)),
        v3_checked(v) is Ok ==> v3_checked(v) == Ok::<ItemV3View, ItemFault>(v),
{
}

/// Every item that `ShoppingItemV3::from_der` returns carries version 3 and
/// was read from a SEQUENCE whose first element is the INTEGER 3 (modulo
/// 2^32).
pub proof fn law_v3_decoded_version(data: Seq<u8>)
    ensures
        v3_decode(data) is Ok ==> v3_decode(data)->Ok_0.version == 3,
        v3_decode(data) is Ok ==> (outer_children(data) is Ok && outer_children(data)->Ok_0[0] is Integer
            && outer_children(data)->Ok_0[0]->Integer_0 % 0x1_0000_0000 == 3),
{
}

/// A third-format SEQUENCE of at least four elements whose first element is an
/// INTEGER `k` other than 3 (within the 32-bit range) is refused with the
/// version error, whatever follows it.
pub proof fn law_v3_wrong_version_refused(data: Seq<u8>, k: int)
    requires
        outer_children(data) is Ok,
        outer_children(data)->Ok_0.len() >= 4,
        outer_children(data)->Ok_0[0] == Asn1Value::Integer(k),
        0 <= k < 0x1_0000_0000,
        k != 3,
    ensures
        v3_decode(data) == Err::<ItemV3View, ItemFault>(
            ItemFault::DerError("Expected version 3, got "@ + decimal(k as nat)),
        ),
{
    assert(k % 0x1_0000_0000 == k);
    assert(version_of(k) == Ok::<u32, ItemFault>(k as u32));
    reveal_strlit("Expected version ");
    reveal_strlit(", got ");
    reveal_strlit("Expected version 3, got ");
    assert(decimal(3) =~= seq!['3']);
    assert("Expected version "@ + decimal(3) + ", got "@ =~= "Expected version 3, got "@);
    assert(version_fault(3, k as u32) == ItemFault::DerError("Expected version 3, got "@ + decimal(k as nat)));
}

impl ShoppingItemV3 {
    /// Makes an item after checking the version (which must be 3), that the
    /// name has at most 255 bytes and the description at most 65535, and,
    /// when there is a product, that `Product::new` accepts its fields.
    pub fn new(
        version: u32,
        name: String,
        unit: String,
        quantity: u64,
        description: Option<String>,
        product: Option<Product>,
    ) -> (res: Result<Self, ShoppingItemError>)
        ensures
            v3_result(res) == v3_checked(
                ItemV3View {
                    version,
                    name: name@,
                    unit: unit@,
                    quantity,
                    description: opt_text(description),
                    product: opt_product(product),
                },
            ),
    {
        if version != EXPECTED_VERSION {
            return Err(version_error(EXPECTED_VERSION, version));
        }
        check_text(&name, &description)?;
        if let Some(ref p) = product {
            let _ = Product::new(
                clone_text(&p.product_id),
                clone_opt_text(&p.provider),
                clone_opt_text(&p.product_url),
                clone_opt_bytes(&p.image_data),
                clone_opt_text(&p.image_type),
            )?;
        }
        Ok(ShoppingItemV3 { version, name, unit, quantity, description, product })
    }

    /// Serializes the item into DER:
    /// ```text
    /// SEQUENCE {
    ///   version     INTEGER
    ///   name        UTF8String
    ///   unit        PrintableString
    ///   quantity    INTEGER
    ///   description UTF8String (only if present)
    ///   product     SEQUENCE   (only if present; the product's DER form)
    /// }
    /// ```
    pub fn to_der(&self) -> (res: Result<Vec<u8>, ShoppingItemError>)
        ensures
            bytes_result(res) == v3_encode(self@),
    {
        let mut children: Vec<ASN1Element> = Vec::new();
        children.push(ASN1Element::Integer(self.version as i128));
        children.push(ASN1Element::UTF8String(clone_text(&self.name)));
        children.push(ASN1Element::PrintableString(clone_text(&self.unit)));
        children.push(ASN1Element::Integer(self.quantity as i128));
        let ghost four = children@;
        if let Some(ref desc) = self.description {
            children.push(ASN1Element::UTF8String(clone_text(desc)));
        }
        proof {
            lemma_values_of(children@);
            let fields = seq![value_of(four[0]), value_of(four[1]), value_of(four[2]), value_of(four[3])];
            if self.description is Some {
                assert(values_of(children@) =~= fields.push(value_of(children@[4])));
            } else {
                assert(values_of(children@) =~= fields);
            }
            assert(values_of(children@) == v3_fields(self@));
        }
        if let Some(ref p) = self.product {
            let product_der = p.to_der()?;
            let (product_element, _pos) = match ASN1Element::from_der(product_der.as_slice(), 0) {
                Ok(result) => result,
                Err(e) => {
                    proof {
                        crate::asn1::lemma_element_not_io(product_der@, 0, 0);
                    }
                    return Err(der_failure("Failed to parse product DER back into ASN1Element: ", &e));
                },
            };
            let ghost before = children@;
            children.push(product_element);
            proof {
                assert(children@.drop_last() == before);
            }
        }
        let sequence = ASN1Element::Sequence(children);
        match sequence.to_der() {
            Ok(der) => Ok(der),
            Err(e) => Err(der_failure("Failed to encode ShoppingItemV3 to DER: ", &e)),
        }
    }

    /// Parses an item from DER in the third format; the version must be 3.
    /// After the quantity come an optional description and an optional
    /// product SEQUENCE, which is read as a product; the result is then
    /// checked as `ShoppingItemV3::new` checks it. Bytes after the SEQUENCE
    /// are refused.
    pub fn from_der(data: Vec<u8>) -> (res: Result<Self, ShoppingItemError>)
        ensures
            v3_result(res) == v3_decode(data@),
    {
        let children = read_outer_sequence(data.as_slice())?;
        proof {
            lemma_values_of(children@);
        }
        if children.len() < 4 {
            return Err(der_message("SEQUENCE too short"));
        }
        let version = match &children[0] {
            ASN1Element::Integer(v) => version_from(*v)?,
            other => {
                return Err(expected_error("INTEGER for version", other));
            },
        };
        if version != EXPECTED_VERSION {
            return Err(version_error(EXPECTED_VERSION, version));
        }
        let name = match &children[1] {
            ASN1Element::UTF8String(s) => clone_text(s),
            other => {
                return Err(expected_error("UTF8String for name", other));
            },
        };
        if byte_len(&name) > MAX_NAME_LEN {
            return Err(input_message("Name too long, max 255"));
        }
        let unit = match &children[2] {
            ASN1Element::PrintableString(s) => clone_text(s),
            other => {
                return Err(expected_error("PrintableString for unit", other));
            },
        };
        let quantity = match &children[3] {
            ASN1Element::Integer(v) => quantity_from(*v)?,
            other => {
                return Err(expected_error("INTEGER for quantity", other));
            },
        };
        // description: always at index 4 when there are more than five
        // elements; with exactly five, only if it is a UTF8String
        let description = if children.len() > 5 {
            match &children[4] {
                ASN1Element::UTF8String(s) => Some(clone_text(s)),
                other => {
                    return Err(expected_error("UTF8String for description", other));
                },
            }
        } else if children.len() == 5 {
            match &children[4] {
                ASN1Element::UTF8String(s) => Some(clone_text(s)),
                _ => None,
            }
        } else {
            None
        };
        let product_idx: usize = if description.is_some() {
            5
        } else {
            4
        };
        let product = if children.len() > product_idx {
            match &children[product_idx] {
                ASN1Element::Sequence(_) => {
                    let product_der = match children[product_idx].to_der() {
                        Ok(d) => d,
                        Err(e) => {
                            return Err(der_failure("Failed to encode nested product SEQUENCE: ", &e));
                        },
                    };
                    Some(Product::from_der(product_der)?)
                },
                other => {
                    return Err(expected_error("SEQUENCE for product", other));
                },
            }
        } else {
            None
        };
        ShoppingItemV3::new(version, name, unit, quantity, description, product)
    }

    /// Converts a second-format item: version 3, no product, the other
    /// fields kept.
    pub fn from_v2(item: &ShoppingItemV2) -> (v3: Self)
        ensures
            v3@ == upgraded(item@),
    {
        ShoppingItemV3 {
            version: EXPECTED_VERSION,
            name: clone_text(&item.name),
            unit: clone_text(&item.unit),
            quantity: item.quantity,
            description: clone_opt_text(&item.description),
            product: None,
        }
    }
}

} // verus!
