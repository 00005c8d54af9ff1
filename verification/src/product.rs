//! A specific product that a shopping item can refer to.
use vstd::prelude::*;
use vstd::utf8::encode_utf8;

use crate::asn1::{
    ASN1Element, Asn1Value, encodable, encoding, values_of, value_of, lemma_values_of, decodable,
    printable, law_der_roundtrip, content, lemma_length_bytes_len, lemma_encode_all_five,
};
use crate::der::{DERTag, tag_name};
use crate::asn1::value_tag;
use crate::errors::{DerFault, ShoppingItemError, ItemFault, fault_message};
use crate::record::{
    text_len, opt_text, opt_bytes, clone_text, byte_len,
    der_failure, outer_children, read_outer_sequence, take_utf8, take_printable, take_octets,
    utf8_at, printable_at, octets_at, optional_fault, check_optional,
};

verus! {

pub const MAX_PRODUCT_ID_LEN: usize = 255;

pub const MAX_PROVIDER_LEN: usize = 255;

pub const MAX_URL_LEN: usize = 2048;

pub const MAX_IMAGE_TYPE_LEN: usize = 10;

/// 10 MB.
pub const MAX_IMAGE_BYTES: usize = 10000000;

#[derive(Debug, Clone, PartialEq)]
pub struct Product {
    pub product_id: String,
    pub provider: Option<String>,
    pub product_url: Option<String>,
    pub image_data: Option<Vec<u8>>,
    pub image_type: Option<String>,
}

/// The mathematical value of a [`Product`].
pub struct ProductView {
    pub product_id: Seq<char>,
    pub provider: Option<Seq<char>>,
    pub product_url: Option<Seq<char>>,
    pub image_data: Option<Seq<u8>>,
    pub image_type: Option<Seq<char>>,
}

impl View for Product {
    type V = ProductView;

    open spec fn view(&self) -> ProductView {
        ProductView {
            product_id: self.product_id@,
            provider: opt_text(self.provider),
            product_url: opt_text(self.product_url),
            image_data: opt_bytes(self.image_data),
            image_type: opt_text(self.image_type),
        }
    }
}

/// The message of the first rule of a product that `p` breaks, checked in the
/// order `Product::new` checks them; `None` when it breaks none.
pub open spec fn product_fault(p: ProductView) -> Option<Seq<char>> {
    if p.product_id.len() == 0 {
        Some("product_id must not be empty"@)
    } else if text_len(p.product_id) > MAX_PRODUCT_ID_LEN {
        Some("product_id too long, max 255"@)
    } else if p.provider is Some && text_len(p.provider->0) > MAX_PROVIDER_LEN {
        Some("provider too long, max 255"@)
    } else if p.product_url is Some && text_len(p.product_url->0) > MAX_URL_LEN {
        Some("product_url too long, max 2048"@)
    } else if p.image_data is Some && p.image_data->0.len() > MAX_IMAGE_BYTES {
        Some("image_data too large, max 10000000 bytes"@)
    } else if p.image_type is Some && text_len(p.image_type->0) > MAX_IMAGE_TYPE_LEN {
        Some("image_type too long, max 10"@)
    } else if p.image_type is Some && p.image_type->0 != "JPEG"@ && p.image_type->0 != "PNG"@ {
        Some("image_type must be JPEG or PNG, got '"@ + p.image_type->0 + "'"@)
    } else {
        None
    }
}

/// The product breaks none of the rules of `Product::new`.
pub open spec fn product_valid(p: ProductView) -> bool {
    product_fault(p) is None
}

/// A UTF8String, or NULL for an absent field.
pub open spec fn opt_utf8_value(o: Option<Seq<char>>) -> Asn1Value {
    match o {
        Some(s) => Asn1Value::UTF8String(s),
        None => Asn1Value::Null,
    }
}

/// A PrintableString, or NULL for an absent field.
pub open spec fn opt_printable_value(o: Option<Seq<char>>) -> Asn1Value {
    match o {
        Some(s) => Asn1Value::PrintableString(s),
        None => Asn1Value::Null,
    }
}

/// An OCTET STRING, or NULL for an absent field.
pub open spec fn opt_octets_value(o: Option<Seq<u8>>) -> Asn1Value {
    match o {
        Some(b) => Asn1Value::OctetString(b),
        None => Asn1Value::Null,
    }
}

/// The ASN.1 value of a product: a SEQUENCE of its five fields in order, an
/// absent field written as NULL to keep the positions.
pub open spec fn product_value(p: ProductView) -> Asn1Value {
    Asn1Value::Sequence(
        seq![
            Asn1Value::UTF8String(p.product_id),
            opt_utf8_value(p.provider),
            opt_utf8_value(p.product_url),
            opt_octets_value(p.image_data),
            opt_printable_value(p.image_type),
        ],
    )
}

/// The product that the values of a product SEQUENCE describe, before the
/// rules of `Product::new` are checked: a field is taken when the element at
/// its position has the field's type, else it is absent.
pub open spec fn product_of_children(cs: Seq<Asn1Value>) -> ProductView {
    ProductView {
        product_id: utf8_at(cs, 0)->0,
        provider: utf8_at(cs, 1),
        product_url: utf8_at(cs, 2),
        image_data: octets_at(cs, 3),
        image_type: printable_at(cs, 4),
    }
}

/// What `Product::new` answers for `p`.
pub open spec fn product_checked(p: ProductView) -> Result<ProductView, ItemFault> {
    match product_fault(p) {
        None => Ok(p),
        Some(m) => Err(ItemFault::InputError(m)),
    }
}

/// What `Product::from_der` answers for `data`.
pub open spec fn product_decode(data: Seq<u8>) -> Result<ProductView, ItemFault> {
    match outer_children(data) {
        Err(e) => Err(e),
        Ok(cs) => if cs.len() == 0 {
            Err(ItemFault::DerError("SEQUENCE is empty"@))
        } else if utf8_at(cs, 0) is None {
            Err(
                ItemFault::DerError(
                    "Expected UTF8String for product_id, found "@ + tag_name(value_tag(cs[0])),
                ),
            )
        } else if optional_fault(cs, 1, DERTag::UTF8String) is Some {
            Err(optional_fault(cs, 1, DERTag::UTF8String)->0)
        } else if optional_fault(cs, 2, DERTag::UTF8String) is Some {
            Err(optional_fault(cs, 2, DERTag::UTF8String)->0)
        } else if optional_fault(cs, 3, DERTag::OctetString) is Some {
            Err(optional_fault(cs, 3, DERTag::OctetString)->0)
        } else if optional_fault(cs, 4, DERTag::PrintableString) is Some {
            Err(optional_fault(cs, 4, DERTag::PrintableString)->0)
        } else {
            product_checked(product_of_children(cs))
        },
    }
}

/// The view of a product result.
pub open spec fn product_result(r: Result<Product, ShoppingItemError>) -> Result<ProductView, ItemFault> {
    match r {
        Ok(p) => Ok(p@),
        Err(e) => Err(e@),
    }
}

/// The image type is `JPEG` or `PNG`.
fn is_known_image_type(it: &String) -> (ok: bool)
    ensures
        ok == (it@ == "JPEG"@ || it@ == "PNG"@),
{
    let jpeg = String::from_str("JPEG");
    let png = String::from_str("PNG");
    *it == jpeg || *it == png
}

/// The message for an image type other than `JPEG` or `PNG`.
fn image_type_message(it: &String) -> (m: String)
    ensures
        m@ == "image_type must be JPEG or PNG, got '"@ + it@ + "'"@,
{
    let mut m = String::from_str("image_type must be JPEG or PNG, got '");
    m.append(it.as_str());
    m.append("'");
    m
}

fn input_error(m: &str) -> (e: ShoppingItemError)
    ensures
        e@ == ItemFault::InputError(m@),
{
    ShoppingItemError::InputError { input_error: String::from_str(m) }
}

impl Product {
    /// Makes a product after checking its fields: a non-empty id of at most
    /// 255 bytes, a provider of at most 255 bytes, a URL of at most 2048
    /// bytes, image data of at most 10 MB, and an image type of at most 10
    /// bytes that is `JPEG` or `PNG`.
    pub fn new(
        product_id: String,
        provider: Option<String>,
        product_url: Option<String>,
        image_data: Option<Vec<u8>>,
        image_type: Option<String>,
    ) -> (res: Result<Self, ShoppingItemError>)
        ensures
            product_result(res) == product_checked(
                ProductView {
                    product_id: product_id@,
                    provider: opt_text(provider),
                    product_url: opt_text(product_url),
                    image_data: opt_bytes(image_data),
                    image_type: opt_text(image_type),
                },
            ),
    {
        if product_id.as_str().is_empty() {
            return Err(input_error("product_id must not be empty"));
        }
        if byte_len(&product_id) > MAX_PRODUCT_ID_LEN {
            return Err(input_error("product_id too long, max 255"));
        }
        if let Some(ref p) = provider {
            if byte_len(p) > MAX_PROVIDER_LEN {
                return Err(input_error("provider too long, max 255"));
            }
        }
        if let Some(ref url) = product_url {
            if byte_len(url) > MAX_URL_LEN {
                return Err(input_error("product_url too long, max 2048"));
            }
        }
        if let Some(ref img) = image_data {
            if img.len() > MAX_IMAGE_BYTES {
                return Err(input_error("image_data too large, max 10000000 bytes"));
            }
        }
        if let Some(ref it) = image_type {
            if byte_len(it) > MAX_IMAGE_TYPE_LEN {
                return Err(input_error("image_type too long, max 10"));
            }
            if !is_known_image_type(it) {
                return Err(ShoppingItemError::InputError { input_error: image_type_message(it) });
            }
        }
        Ok(Product { product_id, provider, product_url, image_data, image_type })
    }

    /// Serializes the product into DER:
    /// ```text
    /// SEQUENCE {
    ///   product_id    UTF8String
    ///   provider      UTF8String or NULL
    ///   product_url   UTF8String or NULL
    ///   image_data    OCTET STRING or NULL
    ///   image_type    PrintableString or NULL
    /// }
    /// ```
    /// Fails when the image type holds a character outside the
    /// PrintableString alphabet.
    pub fn to_der(&self) -> (res: Result<Vec<u8>, ShoppingItemError>)
        ensures
            encodable(product_value(self@)) ==> (res matches Ok(b) && b@ == encoding(
                product_value(self@),
            )),
            !encodable(product_value(self@)) ==> (res matches Err(e) && e@ == ItemFault::DerError(
                "Failed to encode Product to DER: "@ + fault_message(DerFault::InvalidPrintableString),
            )),
    {
        let mut children: Vec<ASN1Element> = Vec::new();
        children.push(ASN1Element::UTF8String(clone_text(&self.product_id)));
        match &self.provider {
            Some(p) => children.push(ASN1Element::UTF8String(clone_text(p))),
            None => children.push(ASN1Element::Null),
        }
        match &self.product_url {
            Some(url) => children.push(ASN1Element::UTF8String(clone_text(url))),
            None => children.push(ASN1Element::Null),
        }
        match &self.image_data {
            Some(img) => children.push(ASN1Element::OctetString(vstd::slice::slice_to_vec(img.as_slice()))),
            None => children.push(ASN1Element::Null),
        }
        match &self.image_type {
            Some(it) => children.push(ASN1Element::PrintableString(clone_text(it))),
            None => children.push(ASN1Element::Null),
        }
        proof {
            lemma_values_of_five(children@);
        }
        let sequence = ASN1Element::Sequence(children);
        assert(sequence@ == product_value(self@));
        match sequence.to_der() {
            Ok(der) => Ok(der),
            Err(e) => Err(der_failure("Failed to encode Product to DER: ", &e)),
        }
    }

    /// Parses a product from DER. The first element must be the product id as
    /// a UTF8String; each later field is taken when the element at its
    /// position has the field's type, is absent when there is no element
    /// there or a NULL, and is refused with an unexpected-tag error otherwise;
    /// the fields are then checked as `Product::new` checks them.
    pub fn from_der(data: Vec<u8>) -> (res: Result<Self, ShoppingItemError>)
        ensures
            product_result(res) == product_decode(data@),
    {
        let children = read_outer_sequence(data.as_slice())?;
        proof {
            lemma_values_of(children@);
        }
        if children.len() == 0 {
            return Err(ShoppingItemError::DerError { der_error: String::from_str("SEQUENCE is empty") });
        }
        let product_id = match &children[0] {
            ASN1Element::UTF8String(s) => clone_text(s),
            other => {
                let mut m = String::from_str("Expected UTF8String for product_id, found ");
                let name = other.tag().to_name();
                m.append(name.as_str());
                return Err(ShoppingItemError::DerError { der_error: m });
            },
        };
        check_optional(&children, 1, DERTag::UTF8String)?;
        check_optional(&children, 2, DERTag::UTF8String)?;
        check_optional(&children, 3, DERTag::OctetString)?;
        check_optional(&children, 4, DERTag::PrintableString)?;
        let provider = take_utf8(&children, 1);
        let product_url = take_utf8(&children, 2);
        let image_data = take_octets(&children, 3);
        let image_type = take_printable(&children, 4);
        Product::new(product_id, provider, product_url, image_data, image_type)
    }
}

/// A present text field that fits the bounds reads back from its encoding.
proof fn lemma_opt_text_decodable(o: Option<Seq<char>>, bound: nat, depth: nat)
    requires
        depth <= 32,
        bound <= 10000000,
        o is Some ==> text_len(o->0) <= bound,
    ensures
        decodable(opt_utf8_value(o), depth),
        encoding(opt_utf8_value(o)).len() <= bound + 6,
{
    if o is Some {
        lemma_length_bytes_len(text_len(o->0));
    } else {
        lemma_length_bytes_len(0);
    }
}

/// A valid product's value can be written, reads back when nested `depth`
/// sequences deep, and has an encoding of at most 10100000 bytes.
#[verifier::rlimit(30)]
pub proof fn lemma_product_decodable(p: ProductView, depth: nat)
    requires
        product_valid(p),
        depth < 32,
    ensures
        decodable(product_value(p), depth),
        encodable(product_value(p)),
        encoding(product_value(p)).len() <= 10100000,
{
    let v = product_value(p);
    let a = Asn1Value::UTF8String(p.product_id);
    let b = opt_utf8_value(p.provider);
    let c = opt_utf8_value(p.product_url);
    let d = opt_octets_value(p.image_data);
    let e = opt_printable_value(p.image_type);
    lemma_opt_text_decodable(Some(p.product_id), 255, depth + 1);
    lemma_opt_text_decodable(p.provider, 255, depth + 1);
    lemma_opt_text_decodable(p.product_url, 2048, depth + 1);
    if p.image_data is Some {
        lemma_length_bytes_len(p.image_data->0.len());
    } else {
        lemma_length_bytes_len(0);
    }
    lemma_image_type_printable(p.image_type, depth + 1);
    if p.image_type is Some {
        lemma_length_bytes_len(text_len(p.image_type->0));
    } else {
        lemma_length_bytes_len(0);
    }
    lemma_encode_all_five(a, b, c, d, e, depth + 1);
    lemma_length_bytes_len(content(v).len());
}

/// A valid product reads back from its DER form unchanged.
pub proof fn law_product_roundtrip(p: ProductView)
    requires
        product_valid(p),
    ensures
        product_decode(encoding(product_value(p))) == Ok::<ProductView, ItemFault>(p),
{
    let v = product_value(p);
    lemma_product_decodable(p, 0);
    law_der_roundtrip(v);
    let cs = seq![
        Asn1Value::UTF8String(p.product_id),
        opt_utf8_value(p.provider),
        opt_utf8_value(p.product_url),
        opt_octets_value(p.image_data),
        opt_printable_value(p.image_type),
    ];
    assert(product_of_children(cs) == p);
}

/// An image type that `Product::new` accepts is a non-empty PrintableString
/// of at most ten bytes.
proof fn lemma_image_type_printable(o: Option<Seq<char>>, depth: nat)
    requires
        depth <= 32,
        o is Some ==> (o->0 == "JPEG"@ || o->0 == "PNG"@),
    ensures
        decodable(opt_printable_value(o), depth),
        o is Some ==> text_len(o->0) <= 10,
{
    if o is Some {
        let t = o->0;
        reveal_strlit("JPEG");
        reveal_strlit("PNG");
        assert(vstd::utf8::is_ascii_chars(t));
        vstd::utf8::is_ascii_chars_encode_utf8(t);
        assert(printable(encode_utf8(t)));
        lemma_length_bytes_len(text_len(t));
    }
}

/// `Product::new` accepts a product exactly when its id is non-empty and has
/// at most 255 bytes, its provider at most 255 bytes, its URL at most 2048
/// bytes, its image data at most 10000000 bytes and its image type is `JPEG`
/// or `PNG`, each rule on one field alone and each absent field allowed; what
/// is accepted is returned unchanged.
pub proof fn law_product_new_accepts(p: ProductView)
    ensures
        product_fault(p) is None <==> ({
            &&& p.product_id.len() > 0
            &&& text_len(p.product_id) <= 255
            &&& p.provider is Some ==> text_len(p.provider->0) <= 255
            &&& p.product_url is Some ==> text_len(p.product_url->0) <= 2048
            &&& p.image_data is Some ==> p.image_data->0.len() <= 10000000
            &&& p.image_type is Some ==> (p.image_type->0 == "JPEG"@ || p.image_type->0 == "PNG"@)
        }),
        product_fault(p) is None ==> product_checked(p) == Ok::<ProductView, ItemFault>(p),
{
    if p.image_type is Some {
        let t = p.image_type->0;
        if t == "JPEG"@ || t == "PNG"@ {
            reveal_strlit("JPEG");
            reveal_strlit("PNG");
            assert(vstd::utf8::is_ascii_chars(t));
            vstd::utf8::is_ascii_chars_encode_utf8(t);
        }
    }
}

/// Only the product id is required: a product SEQUENCE holding the id and then
/// any number of the optional fields in their order (each present field or
/// NULL), with the fields after them left out, reads as the product with those
/// later fields absent.
pub proof fn law_product_prefix_decodes(data: Seq<u8>, p: ProductView, n: int)
    requires
        product_fault(p) is None,
        1 <= n <= 5,
        n <= 1 ==> p.provider is None,
        n <= 2 ==> p.product_url is None,
        n <= 3 ==> p.image_data is None,
        n <= 4 ==> p.image_type is None,
        outer_children(data) == Ok::<Seq<Asn1Value>, ItemFault>(product_value(p)->Sequence_0.take(n)),
    ensures
        product_decode(data) == Ok::<ProductView, ItemFault>(p),
{
    let cs = product_value(p)->Sequence_0.take(n);
    assert(cs.len() == n);
    assert(cs[0] == Asn1Value::UTF8String(p.product_id));
    assert(optional_fault(cs, 1, DERTag::UTF8String) is None);
    assert(optional_fault(cs, 2, DERTag::UTF8String) is None);
    assert(optional_fault(cs, 3, DERTag::OctetString) is None);
    assert(optional_fault(cs, 4, DERTag::PrintableString) is None);
    assert(product_of_children(cs) == p);
}

/// The values of five elements.
proof fn lemma_values_of_five(s: Seq<ASN1Element>)
    requires
        s.len() == 5,
    ensures
        values_of(s) == seq![value_of(s[0]), value_of(s[1]), value_of(s[2]), value_of(s[3]), value_of(s[4])],
{
    lemma_values_of(s);
    assert(values_of(s) =~= seq![value_of(s[0]), value_of(s[1]), value_of(s[2]), value_of(s[3]), value_of(s[4])]);
}

} // verus!
