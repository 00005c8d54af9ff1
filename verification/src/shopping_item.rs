//! The first shopping-item wire format: a flat SEQUENCE with no version.
use vstd::prelude::*;
use vstd::utf8::{encode_utf8, valid_utf8, decode_utf8};

use crate::asn1::{
    ASN1Element, Asn1Value, encoding, values_of, value_of, value_tag, lemma_values_of, string_from_utf8,
    decodable, law_der_roundtrip, lemma_encode_all_push, lemma_length_bytes_len, encode_all,
};
use crate::der::tag_name;
use crate::errors::{ShoppingItemError, ItemFault};
use crate::record::{text_len, opt_text, clone_text, byte_len, outer_children, read_outer_sequence};

verus! {

pub const MAX_NAME_LEN: usize = 255;

pub const MAX_DESC_LEN: usize = 65535;

/// The width that the unit is padded (or cut) to on the wire.
pub const UNIT_WIDTH: usize = 16;

#[derive(Debug, Clone, PartialEq)]
pub struct ShoppingItem {
    pub name: String,
    pub unit: String,
    pub quantity: u64,
    pub description: Option<String>,
}

/// The mathematical value of a [`ShoppingItem`].
pub struct ItemView {
    pub name: Seq<char>,
    pub unit: Seq<char>,
    pub quantity: u64,
    pub description: Option<Seq<char>>,
}

impl View for ShoppingItem {
    type V = ItemView;

    open spec fn view(&self) -> ItemView {
        ItemView {
            name: self.name@,
            unit: self.unit@,
            quantity: self.quantity,
            description: opt_text(self.description),
        }
    }
}

/// The message of the first length rule that a name and description break:
/// a name of at most 255 bytes, a description of at most 65535 bytes.
pub open spec fn text_fault(name: Seq<char>, description: Option<Seq<char>>) -> Option<Seq<char>> {
    if text_len(name) > MAX_NAME_LEN {
        Some("Name too long, max 255"@)
    } else if description is Some && text_len(description->0) > MAX_DESC_LEN {
        Some("Description too long, max 65535"@)
    } else {
        None
    }
}

/// A name and description pass the length rules of the records exactly when
/// the name has at most 255 bytes and the description, if any, at most 65535;
/// so `ShoppingItem::new` accepts exactly those items, with any unit and
/// quantity.
pub proof fn law_text_limits(name: Seq<char>, description: Option<Seq<char>>)
    ensures
        text_fault(name, description) is None <==> (text_len(name) <= 255 && (description is Some
            ==> text_len(description->0) <= 65535)),
{
}

/// The bytes cut or padded with zero bytes to exactly `UNIT_WIDTH` bytes.
pub open spec fn pad_unit(b: Seq<u8>) -> Seq<u8> {
    if b.len() >= UNIT_WIDTH {
        b.take(UNIT_WIDTH as int)
    } else {
        b + Seq::new((UNIT_WIDTH - b.len()) as nat, |i: int| 0u8)
    }
}

/// The ASN.1 value of a first-format item.
pub open spec fn item_value(v: ItemView) -> Asn1Value {
    let fields = seq![
        Asn1Value::UTF8String(v.name),
        Asn1Value::OctetString(pad_unit(encode_utf8(v.unit))),
        Asn1Value::Integer(v.quantity as int),
    ];
    match v.description {
        Some(d) => Asn1Value::Sequence(fields.push(Asn1Value::UTF8String(d))),
        None => Asn1Value::Sequence(fields),
    }
}

/// An INTEGER as an unsigned 64-bit quantity: the error for a negative value,
/// else its low 64 bits.
pub open spec fn quantity_of(v: int) -> Result<u64, ItemFault> {
    if v < 0 {
        Err(ItemFault::DerError("Quantity must be non-negative"@))
    } else {
        Ok((v % 0x1_0000_0000_0000_0000) as u64)
    }
}

/// The error for an element of the wrong type where `what` was expected.
pub open spec fn expected_fault(what: Seq<char>, found: Asn1Value) -> ItemFault {
    ItemFault::DerError("Expected "@ + what + ", found "@ + tag_name(value_tag(found)))
}

/// What `ShoppingItem::from_der` answers for `data`.
pub open spec fn item_decode(data: Seq<u8>) -> Result<ItemView, ItemFault> {
    match outer_children(data) {
        Err(e) => Err(e),
        Ok(cs) => if cs.len() == 0 {
            Err(ItemFault::DerError("SEQUENCE is empty"@))
        } else {
            match cs[0] {
                Asn1Value::UTF8String(name) => if text_len(name) > MAX_NAME_LEN {
                    Err(ItemFault::InputError("Name too long, max 255"@))
                } else if cs.len() < 2 {
                    Err(ItemFault::DerError("SEQUENCE too short"@))
                } else {
                    match cs[1] {
                        Asn1Value::OctetString(b) => if !valid_utf8(b) {
                            Err(ItemFault::DerError("Unit contains invalid UTF-8"@))
                        } else if cs.len() < 3 {
                            Err(ItemFault::DerError("SEQUENCE too short"@))
                        } else {
                            match cs[2] {
                                Asn1Value::Integer(q) => match quantity_of(q) {
                                    Err(e) => Err(e),
                                    Ok(quantity) => if cs.len() > 3 {
                                        match cs[3] {
                                            Asn1Value::UTF8String(d) => Ok(
                                                ItemView {
                                                    name,
                                                    unit: decode_utf8(b),
                                                    quantity,
                                                    description: Some(d),
                                                },
                                            ),
                                            other => Err(expected_fault("UTF8String for description"@, other)),
                                        }
                                    } else {
                                        Ok(ItemView { name, unit: decode_utf8(b), quantity, description: None })
                                    },
                                },
                                other => Err(expected_fault("INTEGER for quantity"@, other)),
                            }
                        },
                        other => Err(expected_fault("OctetString for unit"@, other)),
                    }
                },
                other => Err(expected_fault("UTF8String for name"@, other)),
            }
        },
    }
}

/// `n` NUL characters.
pub open spec fn nul_chars(n: nat) -> Seq<char> {
    Seq::new(n, |i: int| '\0')
}

/// The UTF-8 form of a concatenation is the concatenation of the UTF-8 forms.
proof fn lemma_encode_utf8_concat(a: Seq<char>, b: Seq<char>)
    ensures
        encode_utf8(a + b) == encode_utf8(a) + encode_utf8(b),
    decreases a.len(),
{
    if a.len() == 0 {
        assert(a + b =~= b);
        assert(encode_utf8(a) =~= Seq::<u8>::empty());
        assert(encode_utf8(a) + encode_utf8(b) =~= encode_utf8(b));
    } else {
        lemma_encode_utf8_concat(a.drop_first(), b);
        assert((a + b).drop_first() =~= a.drop_first() + b);
        assert((a + b)[0] == a[0]);
    }
}

/// A unit of at most 16 bytes, padded with zero bytes to 16, is the UTF-8 form
/// of the unit followed by NUL characters.
proof fn lemma_pad_unit_nuls(unit: Seq<char>)
    requires
        text_len(unit) <= UNIT_WIDTH,
    ensures
        pad_unit(encode_utf8(unit)) == encode_utf8(unit + nul_chars((UNIT_WIDTH - text_len(unit)) as nat)),
{
    let k = (UNIT_WIDTH - text_len(unit)) as nat;
    let n = nul_chars(k);
    assert(vstd::utf8::is_ascii_chars(n));
    vstd::utf8::is_ascii_chars_encode_utf8(n);
    assert(encode_utf8(n) =~= Seq::new(k, |i: int| 0u8)) by {
        assert forall|i: int| 0 <= i < k implies encode_utf8(n)[i] == 0u8 by {
            assert(n[i] == '\0');
        }
    }
    lemma_encode_utf8_concat(unit, n);
    if text_len(unit) == UNIT_WIDTH {
        assert(encode_utf8(unit).take(UNIT_WIDTH as int) =~= encode_utf8(unit));
        assert(encode_utf8(n) =~= Seq::<u8>::empty());
        assert(encode_utf8(unit) + encode_utf8(n) =~= encode_utf8(unit));
    }
}

/// A unit of at most 16 bytes, padded with zero bytes to 16, is valid UTF-8:
/// the first format can always read it back.
pub proof fn lemma_short_unit_readable(unit: Seq<char>)
    requires
        text_len(unit) <= UNIT_WIDTH,
    ensures
        valid_utf8(pad_unit(encode_utf8(unit))),
{
    lemma_pad_unit_nuls(unit);
    vstd::utf8::encode_utf8_valid_utf8(unit + nul_chars((UNIT_WIDTH - text_len(unit)) as nat));
}

/// An item whose name and description are within their limits reads back from
/// its DER form with the same name, quantity and description, and as unit the
/// 16 padded unit bytes decoded as UTF-8 (when they are valid UTF-8, as they
/// always are for a unit of at most 16 bytes). A unit of
/// at most 16 bytes reads back followed by as many NUL characters as make it
/// 16 bytes long; one of exactly 16 bytes reads back unchanged.
pub proof fn law_item_roundtrip(v: ItemView)
    requires
        text_fault(v.name, v.description) is None,
        text_len(v.unit) <= UNIT_WIDTH || valid_utf8(pad_unit(encode_utf8(v.unit))),
    ensures
        item_decode(encoding(item_value(v))) == Ok::<ItemView, ItemFault>(
            ItemView {
                name: v.name,
                unit: decode_utf8(pad_unit(encode_utf8(v.unit))),
                quantity: v.quantity,
                description: v.description,
            },
        ),
        text_len(v.unit) <= UNIT_WIDTH ==> item_decode(encoding(item_value(v))) == Ok::<ItemView, ItemFault>(
            ItemView {
                name: v.name,
                unit: v.unit + nul_chars((UNIT_WIDTH - text_len(v.unit)) as nat),
                quantity: v.quantity,
                description: v.description,
            },
        ),
        text_len(v.unit) == UNIT_WIDTH ==> item_decode(encoding(item_value(v))) == Ok::<ItemView, ItemFault>(v),
{
    if text_len(v.unit) <= UNIT_WIDTH {
        lemma_short_unit_readable(v.unit);
    }
    let a = Asn1Value::UTF8String(v.name);
    let b = Asn1Value::OctetString(pad_unit(encode_utf8(v.unit)));
    let c = Asn1Value::Integer(v.quantity as int);
    lemma_length_bytes_len(text_len(v.name));
    lemma_length_bytes_len(UNIT_WIDTH as nat);
    crate::asn1_int::lemma_int_bytes(v.quantity as int);
    assert(crate::der::pow256(15) == 0x1_0000_0000_0000_0000_0000_0000_0000_00) by {
        reveal_with_fuel(crate::der::pow256, 16);
    }
    crate::asn1_int::lemma_int_bytes_len(v.quantity as int, 16);
    let s0 = Seq::<Asn1Value>::empty();
    assert(encode_all(s0) == Seq::<u8>::empty());
    assert(crate::asn1::all_decodable(s0, 1));
    lemma_encode_all_push(s0, a, 1);
    lemma_encode_all_push(seq![a], b, 1);
    lemma_encode_all_push(seq![a, b], c, 1);
    assert(s0.push(a) =~= seq![a]);
    assert(seq![a].push(b) =~= seq![a, b]);
    assert(seq![a, b].push(c) =~= seq![a, b, c]);
    assert(decodable(a, 1));
    assert(decodable(b, 1));
    assert(decodable(c, 1));
    let fields = seq![a, b, c];
    if v.description is Some {
        let d = Asn1Value::UTF8String(v.description->0);
        lemma_length_bytes_len(text_len(v.description->0));
        lemma_encode_all_push(fields, d, 1);
        assert(decodable(d, 1));
    }
    assert(decodable(item_value(v), 0));
    law_der_roundtrip(item_value(v));
    if text_len(v.unit) <= UNIT_WIDTH {
        let u = v.unit + nul_chars((UNIT_WIDTH - text_len(v.unit)) as nat);
        lemma_pad_unit_nuls(v.unit);
        vstd::utf8::encode_utf8_decode_utf8(u);
        if text_len(v.unit) == UNIT_WIDTH {
            assert(u =~= v.unit);
        }
    }
}

/// The view of an item result.
pub open spec fn item_result(r: Result<ShoppingItem, ShoppingItemError>) -> Result<ItemView, ItemFault> {
    match r {
        Ok(i) => Ok(i@),
        Err(e) => Err(e@),
    }
}

/// The error for an element of the wrong type where `what` was expected.
pub fn expected_error(what: &str, found: &ASN1Element) -> (e: ShoppingItemError)
    ensures
        e@ == expected_fault(what@, found@),
{
    let mut m = String::from_str("Expected ");
    m.append(what);
    m.append(", found ");
    let name = found.tag().to_name();
    m.append(name.as_str());
    ShoppingItemError::DerError { der_error: m }
}

/// The record error with the message `m`.
pub fn der_message(m: &str) -> (e: ShoppingItemError)
    ensures
        e@ == ItemFault::DerError(m@),
{
    ShoppingItemError::DerError { der_error: String::from_str(m) }
}

/// The input error with the message `m`.
pub fn input_message(m: &str) -> (e: ShoppingItemError)
    ensures
        e@ == ItemFault::InputError(m@),
{
    ShoppingItemError::InputError { input_error: String::from_str(m) }
}

/// Checks the length rules on a name and description.
pub fn check_text(name: &String, description: &Option<String>) -> (res: Result<(), ShoppingItemError>)
    ensures
        match text_fault(name@, opt_text(*description)) {
            None => res is Ok,
            Some(m) => res matches Err(e) && e@ == ItemFault::InputError(m),
        },
{
    if byte_len(name) > MAX_NAME_LEN {
        return Err(input_message("Name too long, max 255"));
    }
    if let Some(ref desc) = description {
        if byte_len(desc) > MAX_DESC_LEN {
            return Err(input_message("Description too long, max 65535"));
        }
    }
    Ok(())
}

/// An INTEGER as an unsigned 64-bit quantity.
pub fn quantity_from(v: i128) -> (res: Result<u64, ShoppingItemError>)
    ensures
        match res {
            Ok(q) => quantity_of(v as int) == Ok::<u64, ItemFault>(q),
            Err(e) => quantity_of(v as int) == Err::<u64, ItemFault>(e@),
        },
{
    if v < 0 {
        return Err(der_message("Quantity must be non-negative"));
    }
    let q = (v as u128 % 0x1_0000_0000_0000_0000u128) as u64;
    Ok(q)
}

/// The unit's bytes cut or padded with zero bytes to `UNIT_WIDTH` bytes.
fn padded_unit(unit: &String) -> (out: Vec<u8>)
    ensures
        out@ == pad_unit(encode_utf8(unit@)),
{
    let bytes = unit.as_str().as_bytes();
    let mut out: Vec<u8> = Vec::new();
    let mut i: usize = 0;
    while i < UNIT_WIDTH
        invariant
            bytes@ == encode_utf8(unit@),
            i <= UNIT_WIDTH,
            out@ == pad_unit(bytes@).take(i as int),
        decreases UNIT_WIDTH - i,
    {
        if i < bytes.len() {
            out.push(bytes[i]);
        } else {
            out.push(0u8);
        }
        proof {
            assert(pad_unit(bytes@).len() == UNIT_WIDTH);
            assert(out@ =~= pad_unit(bytes@).take(i + 1));
        }
        i = i + 1;
    }
    proof {
        assert(pad_unit(bytes@).take(UNIT_WIDTH as int) =~= pad_unit(bytes@));
    }
    out
}

impl ShoppingItem {
    /// Makes an item after checking that the name has at most 255 bytes and
    /// the description at most 65535.
    pub fn new(name: String, unit: String, quantity: u64, description: Option<String>) -> (res: Result<
        Self,
        ShoppingItemError,
    >)
        ensures
            match text_fault(name@, opt_text(description)) {
                None => res matches Ok(item) && item@ == ItemView {
                    name: name@,
                    unit: unit@,
                    quantity,
                    description: opt_text(description),
                },
                Some(m) => res matches Err(e) && e@ == ItemFault::InputError(m),
            },
    {
        check_text(&name, &description)?;
        Ok(ShoppingItem { name, unit, quantity, description })
    }

    /// Serializes the item into DER:
    /// ```text
    /// SEQUENCE {
    ///   name        UTF8String
    ///   unit        OCTET STRING (the unit's bytes cut or zero-padded to 16)
    ///   quantity    INTEGER
    ///   description UTF8String (only if present)
    /// }
    /// ```
    pub fn to_der(&self) -> (der: Vec<u8>)
        ensures
            der@ == encoding(item_value(self@)),
    {
        let mut children: Vec<ASN1Element> = Vec::new();
        children.push(ASN1Element::UTF8String(clone_text(&self.name)));
        children.push(ASN1Element::OctetString(padded_unit(&self.unit)));
        children.push(ASN1Element::Integer(self.quantity as i128));
        let ghost three = children@;
        if let Some(ref desc) = self.description {
            children.push(ASN1Element::UTF8String(clone_text(desc)));
        }
        proof {
            lemma_values_of(children@);
            if self.description is Some {
                assert(values_of(children@) =~= seq![value_of(three[0]), value_of(three[1]), value_of(three[2])].push(
                    value_of(children@[3]),
                ));
            } else {
                assert(values_of(children@) =~= seq![value_of(three[0]), value_of(three[1]), value_of(three[2])]);
            }
        }
        let sequence = ASN1Element::Sequence(children);
        assert(sequence@ == item_value(self@));
        proof {
            crate::asn1::lemma_encodable_without_printable(sequence@);
        }
        match sequence.to_der() {
            Ok(der) => der,
            Err(_) => {
                proof {
                    assert(false);
                }
                Vec::new()
            },
        }
    }

    /// Parses an item from DER in the first format. The unit is taken as the
    /// whole OCTET STRING decoded as UTF-8, padding included; a negative
    /// quantity is refused and a larger one keeps its low 64 bits. A SEQUENCE
    /// that ends before the quantity, or is followed by more bytes, is refused.
    pub fn from_der(data: Vec<u8>) -> (res: Result<Self, ShoppingItemError>)
        ensures
            item_result(res) == item_decode(data@),
    {
        let children = read_outer_sequence(data.as_slice())?;
        proof {
            lemma_values_of(children@);
        }
        if children.len() == 0 {
            return Err(der_message("SEQUENCE is empty"));
        }
        let name = match &children[0] {
            ASN1Element::UTF8String(s) => clone_text(s),
            other => {
                return Err(expected_error("UTF8String for name", other));
            },
        };
        if byte_len(&name) > MAX_NAME_LEN {
            return Err(input_message("Name too long, max 255"));
        }
        if children.len() < 2 {
            return Err(der_message("SEQUENCE too short"));
        }
        let unit = match &children[1] {
            ASN1Element::OctetString(bytes) => {
                match string_from_utf8(vstd::slice::slice_to_vec(bytes.as_slice())) {
                    Ok(s) => s,
                    Err(_) => {
                        return Err(der_message("Unit contains invalid UTF-8"));
                    },
                }
            },
            other => {
                return Err(expected_error("OctetString for unit", other));
            },
        };
        if children.len() < 3 {
            return Err(der_message("SEQUENCE too short"));
        }
        let quantity = match &children[2] {
            ASN1Element::Integer(v) => quantity_from(*v)?,
            other => {
                return Err(expected_error("INTEGER for quantity", other));
            },
        };
        let description = if children.len() > 3 {
            match &children[3] {
                ASN1Element::UTF8String(s) => Some(clone_text(s)),
                other => {
                    return Err(expected_error("UTF8String for description", other));
                },
            }
        } else {
            None
        };
        Ok(ShoppingItem { name, unit, quantity, description })
    }
}

} // verus!
