//! The second shopping-item wire format: a version first, and proper ASN.1
//! string types (UTF8String for text, PrintableString for the unit).
use vstd::prelude::*;
use vstd::utf8::encode_utf8;

use crate::asn1::{
    ASN1Element, Asn1Value, encoding, encodable, printable, values_of, value_of, lemma_values_of,
    decodable, law_der_roundtrip, lemma_encode_all_push, lemma_length_bytes_len, encode_all,
    content,
};
use crate::asn1_int::int_bytes;
use crate::der::MAX_PARSE_SIZE;
use crate::errors::{ShoppingItemError, ItemFault};
use crate::record::{text_len, opt_text, clone_text, clone_opt_text, byte_len, outer_children, read_outer_sequence};
use crate::shopping_item::{
    ShoppingItem, text_fault, quantity_of, expected_fault, check_text, quantity_from, expected_error,
    der_message, input_message, MAX_NAME_LEN,
};
use crate::text::{decimal, append_decimal};

verus! {

/// The version that this format carries.
pub const EXPECTED_VERSION: u32 = 2;

/// Second-format item: X.509 v3–inspired, with the version as the first
/// INTEGER.
#[derive(Debug, Clone, PartialEq)]
pub struct ShoppingItemV2 {
    pub version: u32,
    pub name: String,
    pub unit: String,
    pub quantity: u64,
    pub description: Option<String>,
}

/// The mathematical value of a [`ShoppingItemV2`].
pub struct ItemV2View {
    pub version: u32,
    pub name: Seq<char>,
    pub unit: Seq<char>,
    pub quantity: u64,
    pub description: Option<Seq<char>>,
}

impl View for ShoppingItemV2 {
    type V = ItemV2View;

    open spec fn view(&self) -> ItemV2View {
        ItemV2View {
            version: self.version,
            name: self.name@,
            unit: self.unit@,
            quantity: self.quantity,
            description: opt_text(self.description),
        }
    }
}

/// The error for a version other than `expected`.
pub open spec fn version_fault(expected: u32, version: u32) -> ItemFault {
    ItemFault::DerError("Expected version "@ + decimal(expected as nat) + ", got "@ + decimal(version as nat))
}

/// The error for a version other than `expected`.
pub fn version_error(expected: u32, version: u32) -> (e: ShoppingItemError)
    ensures
        e@ == version_fault(expected, version),
{
    let mut m = String::from_str("Expected version ");
    append_decimal(&mut m, expected as u64);
    m.append(", got ");
    append_decimal(&mut m, version as u64);
    ShoppingItemError::DerError { der_error: m }
}

/// An INTEGER as a version: the error for a negative value, else its low
/// 32 bits.
pub open spec fn version_of(v: int) -> Result<u32, ItemFault> {
    if v < 0 {
        Err(ItemFault::DerError("Version must be non-negative"@))
    } else {
        Ok((v % 0x1_0000_0000) as u32)
    }
}

/// An INTEGER as a version.
pub fn version_from(v: i128) -> (res: Result<u32, ShoppingItemError>)
    ensures
        match res {
            Ok(q) => version_of(v as int) == Ok::<u32, ItemFault>(q),
            Err(e) => version_of(v as int) == Err::<u32, ItemFault>(e@),
        },
{
    if v < 0 {
        return Err(der_message("Version must be non-negative"));
    }
    Ok((v as u128 % 0x1_0000_0000u128) as u32)
}

/// What `ShoppingItemV2::new` answers for its arguments.
pub open spec fn v2_checked(v: ItemV2View) -> Result<ItemV2View, ItemFault> {
    if v.version != EXPECTED_VERSION {
        Err(version_fault(EXPECTED_VERSION, v.version))
    } else {
        match text_fault(v.name, v.description) {
            Some(m) => Err(ItemFault::InputError(m)),
            None => Ok(v),
        }
    }
}

/// The ASN.1 value of a second-format item.
pub open spec fn v2_value(v: ItemV2View) -> Asn1Value {
    let fields = seq![
        Asn1Value::Integer(v.version as int),
        Asn1Value::UTF8String(v.name),
        Asn1Value::PrintableString(v.unit),
        Asn1Value::Integer(v.quantity as int),
    ];
    match v.description {
        Some(d) => Asn1Value::Sequence(fields.push(Asn1Value::UTF8String(d))),
        None => Asn1Value::Sequence(fields),
    }
}

/// What `ShoppingItemV2::from_der` answers for `data`.
pub open spec fn v2_decode(data: Seq<u8>) -> Result<ItemV2View, ItemFault> {
    match outer_children(data) {
        Err(e) => Err(e),
        Ok(cs) => if cs.len() == 0 {
            Err(ItemFault::DerError("SEQUENCE is empty"@))
        } else {
            match cs[0] {
                Asn1Value::Integer(vv) => match version_of(vv) {
                    Err(e) => Err(e),
                    Ok(version) => if version != EXPECTED_VERSION {
                        Err(version_fault(EXPECTED_VERSION, version))
                    } else if cs.len() < 2 {
                        Err(ItemFault::DerError("SEQUENCE too short"@))
                    } else {
                        match cs[1] {
                            Asn1Value::UTF8String(name) => if text_len(name) > MAX_NAME_LEN {
                                Err(ItemFault::InputError("Name too long, max 255"@))
                            } else if cs.len() < 3 {
                                Err(ItemFault::DerError("SEQUENCE too short"@))
                            } else {
                                match cs[2] {
                                    Asn1Value::PrintableString(unit) => if cs.len() < 4 {
                                        Err(ItemFault::DerError("SEQUENCE too short"@))
                                    } else {
                                        match cs[3] {
                                            Asn1Value::Integer(q) => match quantity_of(q) {
                                                Err(e) => Err(e),
                                                Ok(quantity) => if cs.len() > 4 {
                                                    match cs[4] {
                                                        Asn1Value::UTF8String(d) => Ok(
                                                            ItemV2View { version, name, unit, quantity, description: Some(d) },
                                                        ),
                                                        other => Err(expected_fault("UTF8String for description"@, other)),
                                                    }
                                                } else {
                                                    Ok(ItemV2View { version, name, unit, quantity, description: None })
                                                },
                                            },
                                            other => Err(expected_fault("INTEGER for quantity"@, other)),
                                        }
                                    },
                                    other => Err(expected_fault("PrintableString for unit"@, other)),
                                }
                            },
                            other => Err(expected_fault("UTF8String for name"@, other)),
                        }
                    },
                },
                other => Err(expected_fault("INTEGER for version"@, other)),
            }
        },
    }
}

/// The view of a second-format result.
pub open spec fn v2_result(r: Result<ShoppingItemV2, ShoppingItemError>) -> Result<ItemV2View, ItemFault> {
    match r {
        Ok(i) => Ok(i@),
        Err(e) => Err(e@),
    }
}

/// The characters left when the trailing `'\0'` characters are removed,
/// as UTF-8 bytes: the bytes with their trailing zero bytes removed.
pub open spec fn trim_zero_bytes(b: Seq<u8>) -> Seq<u8>
    decreases b.len(),
{
    if b.len() > 0 && b.last() == 0 {
        trim_zero_bytes(b.drop_last())
    } else {
        b
    }
}

/// The string with its trailing NUL characters removed.
fn trim_trailing_nuls(s: &String) -> (t: String)
    ensures
        encode_utf8(t@) == trim_zero_bytes(encode_utf8(s@)),
{
    let st = s.as_str();
    let bytes = st.as_bytes();
    let mut k: usize = bytes.len();
    proof {
        assert(bytes@.take(k as int) =~= bytes@);
    }
    while k > 0 && bytes[k - 1] == 0
        invariant
            bytes@ == encode_utf8(s@),
            k <= bytes@.len(),
            trim_zero_bytes(bytes@) == trim_zero_bytes(bytes@.take(k as int)),
            k < bytes@.len() ==> bytes@[k as int] == 0,
        decreases k,
    {
        proof {
            assert(bytes@.take(k as int).drop_last() =~= bytes@.take(k - 1));
        }
        k = k - 1;
    }
    proof {
        vstd::utf8::encode_utf8_valid_utf8(s@);
        if k < bytes@.len() {
            vstd::utf8::is_char_boundary_iff_not_is_continuation_byte(bytes@, k as int);
        } else {
            vstd::utf8::is_char_boundary_start_end_of_seq(bytes@);
        }
        assert(bytes@.take(k as int) =~= bytes@.subrange(0, k as int));
        if k > 0 {
            assert(bytes@.take(k as int).last() == bytes@[k - 1]);
        }
        assert(trim_zero_bytes(bytes@.take(k as int)) == bytes@.take(k as int));
    }
    let (head, _tail) = st.split_at(k);
    head.to_owned()
}

impl ShoppingItemV2 {
    /// Makes an item after checking the version (which must be 2), that the
    /// name has at most 255 bytes and the description at most 65535.
    pub fn new(version: u32, name: String, unit: String, quantity: u64, description: Option<String>) -> (res:
        Result<Self, ShoppingItemError>)
        ensures
            v2_result(res) == v2_checked(
                ItemV2View { version, name: name@, unit: unit@, quantity, description: opt_text(description) },
            ),
    {
        if version != EXPECTED_VERSION {
            return Err(version_error(EXPECTED_VERSION, version));
        }
        check_text(&name, &description)?;
        Ok(ShoppingItemV2 { version, name, unit, quantity, description })
    }

    /// Serializes the item into DER:
    /// ```text
    /// SEQUENCE {
    ///   version     INTEGER
    ///   name        UTF8String
    ///   unit        PrintableString
    ///   quantity    INTEGER
    ///   description UTF8String (only if present)
    /// }
    /// ```
    /// The unit must be a valid PrintableString.
    pub fn to_der(&self) -> (der: Vec<u8>)
        requires
            printable(encode_utf8(self.unit@)),
        ensures
            der@ == encoding(v2_value(self@)),
    {
        let mut children: Vec<ASN1Element> = Vec::new();
        children.push(ASN1Element::Integer(self.version as i128));
        children.push(ASN1Element::UTF8String(clone_text(&self.name)));
        children.push(ASN1Element::PrintableString(clone_text(&self.unit)));
        children.push(ASN1Element::Integer(self.quantity as i128));
        let ghost four = children@;
        if let Some(ref desc) = self.description {
            children.push(ASN1Element::UTF8String(clone_text(desc)));
        }
        proof {
            lemma_values_of(children@);
            let fields = seq![value_of(four[0]), value_of(four[1]), value_of(four[2]), value_of(four[3])];
            if self.description is Some {
                assert(values_of(children@) =~= fields.push(value_of(children@[4])));
            } else {
                assert(values_of(children@) =~= fields);
            }
        }
        let sequence = ASN1Element::Sequence(children);
        assert(sequence@ == v2_value(self@));
        proof {
            lemma_v2_encodable(self@);
        }
        match sequence.to_der() {
            Ok(der) => der,
            Err(_) => {
                proof {
                    assert(false);
                }
                Vec::new()
            },
        }
    }

    /// Parses an item from DER in the second format; the version must be 2.
    /// A negative version or quantity is refused; larger ones keep their low
    /// 32 or 64 bits. A SEQUENCE that ends before the quantity, or is followed
    /// by more bytes, is refused.
    pub fn from_der(data: Vec<u8>) -> (res: Result<Self, ShoppingItemError>)
        ensures
            v2_result(res) == v2_decode(data@),
    {
        let children = read_outer_sequence(data.as_slice())?;
        proof {
            lemma_values_of(children@);
        }
        if children.len() == 0 {
            return Err(der_message("SEQUENCE is empty"));
        }
        let version = match &children[0] {
            ASN1Element::Integer(v) => version_from(*v)?,
            other => {
                return Err(expected_error("INTEGER for version", other));
            },
        };
        if version != EXPECTED_VERSION {
            return Err(version_error(EXPECTED_VERSION, version));
        }
        if children.len() < 2 {
            return Err(der_message("SEQUENCE too short"));
        }
        let name = match &children[1] {
            ASN1Element::UTF8String(s) => clone_text(s),
            other => {
                return Err(expected_error("UTF8String for name", other));
            },
        };
        if byte_len(&name) > MAX_NAME_LEN {
            return Err(input_message("Name too long, max 255"));
        }
        if children.len() < 3 {
            return Err(der_message("SEQUENCE too short"));
        }
        let unit = match &children[2] {
            ASN1Element::PrintableString(s) => clone_text(s),
            other => {
                return Err(expected_error("PrintableString for unit", other));
            },
        };
        if children.len() < 4 {
            return Err(der_message("SEQUENCE too short"));
        }
        let quantity = match &children[3] {
            ASN1Element::Integer(v) => quantity_from(*v)?,
            other => {
                return Err(expected_error("INTEGER for quantity", other));
            },
        };
        let description = if children.len() > 4 {
            match &children[4] {
                ASN1Element::UTF8String(s) => Some(clone_text(s)),
                other => {
                    return Err(expected_error("UTF8String for description", other));
                },
            }
        } else {
            None
        };
        Ok(ShoppingItemV2 { version, name, unit, quantity, description })
    }

    /// Converts a first-format item: version 2, the unit with its trailing
    /// NUL characters (the first format's padding) removed, the other fields
    /// kept.
    pub fn from_v1(item: &ShoppingItem) -> (v2: Self)
        ensures
            v2.version == EXPECTED_VERSION,
            v2.name@ == item.name@,
            encode_utf8(v2.unit@) == trim_zero_bytes(encode_utf8(item.unit@)),
            v2.quantity == item.quantity,
            opt_text(v2.description) == opt_text(item.description),
    {
        let trimmed_unit = trim_trailing_nuls(&item.unit);
        ShoppingItemV2 {
            version: EXPECTED_VERSION,
            name: clone_text(&item.name),
            unit: trimmed_unit,
            quantity: item.quantity,
            description: clone_opt_text(&item.description),
        }
    }
}

/// A second-format item that `ShoppingItemV2::new` accepts, with a unit of
/// PrintableString characters and content within the decoder's size limit,
/// reads back from its DER form unchanged.
pub proof fn law_v2_roundtrip(v: ItemV2View)
    requires
        v2_checked(v) is Ok,
        printable(encode_utf8(v.unit)),
        content(v2_value(v)).len() <= MAX_PARSE_SIZE,
    ensures
        v2_decode(encoding(v2_value(v))) == Ok::<ItemV2View, ItemFault>(v),
{
    let a = Asn1Value::Integer(v.version as int);
    let b = Asn1Value::UTF8String(v.name);
    let c = Asn1Value::PrintableString(v.unit);
    let d = Asn1Value::Integer(v.quantity as int);
    lemma_length_bytes_len(text_len(v.name));
    lemma_small_integer_decodable(v.version as int);
    lemma_small_integer_decodable(v.quantity as int);
    let s0 = Seq::<Asn1Value>::empty();
    assert(encode_all(s0) == Seq::<u8>::empty());
    assert(crate::asn1::all_decodable(s0, 1));
    lemma_encode_all_push(s0, a, 1);
    lemma_encode_all_push(seq![a], b, 1);
    lemma_encode_all_push(seq![a, b], c, 1);
    lemma_encode_all_push(seq![a, b, c], d, 1);
    assert(s0.push(a) =~= seq![a]);
    assert(seq![a].push(b) =~= seq![a, b]);
    assert(seq![a, b].push(c) =~= seq![a, b, c]);
    assert(seq![a, b, c].push(d) =~= seq![a, b, c, d]);
    if v.description is Some {
        let e = Asn1Value::UTF8String(v.description->0);
        lemma_length_bytes_len(text_len(v.description->0));
        lemma_encode_all_push(seq![a, b, c, d], e, 1);
    }
    assert(text_len(v.unit) <= MAX_PARSE_SIZE);
    assert(decodable(v2_value(v), 0));
    law_der_roundtrip(v2_value(v));
}

/// A second-format item is accepted by `ShoppingItemV2::new` exactly when its
/// version is 2, its name has at most 255 bytes and its description, if any,
/// at most 65535 bytes; what is accepted is returned unchanged.
pub proof fn law_v2_new_accepts(v: ItemV2View)
    ensures
        v2_checked(v) is Ok <==> (v.version == 2 && text_len(v.name) <= 255 && (v.description is Some
            ==> text_len(v.description->0) <= 65535)),
        v2_checked(v) is Ok ==> v2_checked(v) == Ok::<ItemV2View, ItemFault>(v),
{
}

/// Every item that `ShoppingItemV2::from_der` returns carries version 2, a
/// name of at most 255 bytes, and the version INTEGER it was read from is 2
/// (modulo 2^32).
pub proof fn law_v2_decoded_version(data: Seq<u8>)
    ensures
        v2_decode(data) is Ok ==> v2_decode(data)->Ok_0.version == 2,
        v2_decode(data) is Ok ==> text_len(v2_decode(data)->Ok_0.name) <= 255,
        v2_decode(data) is Ok ==> (outer_children(data) is Ok && outer_children(data)->Ok_0[0] is Integer
            && outer_children(data)->Ok_0[0]->Integer_0 % 0x1_0000_0000 == 2),
{
}

/// A second-format SEQUENCE whose first element is an INTEGER `k` other than 2
/// (within the 32-bit range) is refused with the version error, whatever
/// follows it.
pub proof fn law_v2_wrong_version_refused(data: Seq<u8>, k: int)
    requires
        outer_children(data) is Ok,
        outer_children(data)->Ok_0.len() >= 1,
        outer_children(data)->Ok_0[0] == Asn1Value::Integer(k),
        0 <= k < 0x1_0000_0000,
        k != 2,
    ensures
        v2_decode(data) == Err::<ItemV2View, ItemFault>(
            ItemFault::DerError("Expected version 2, got "@ + decimal(k as nat)),
        ),
{
    assert(k % 0x1_0000_0000 == k);
    assert(version_of(k) == Ok::<u32, ItemFault>(k as u32));
    reveal_strlit("Expected version ");
    reveal_strlit(", got ");
    reveal_strlit("Expected version 2, got ");
    assert(decimal(2) =~= seq!['2']);
    assert("Expected version "@ + decimal(2) + ", got "@ =~= "Expected version 2, got "@);
    assert(version_fault(2, k as u32) == ItemFault::DerError("Expected version 2, got "@ + decimal(k as nat)));
}

/// An INTEGER below 2^64 reads back from its encoding and has at most nine
/// content bytes.
pub proof fn lemma_small_integer_decodable(i: int)
    requires
        0 <= i < 0x1_0000_0000_0000_0000,
    ensures
        decodable(Asn1Value::Integer(i), 1),
        crate::asn1::content(Asn1Value::Integer(i)).len() <= 16,
        i % 0x1_0000_0000_0000_0000 == i,
        i < 0x1_0000_0000 ==> i % 0x1_0000_0000 == i,
{
    crate::asn1_int::lemma_int_bytes(i);
    assert(crate::der::pow256(15) == 0x1_0000_0000_0000_0000_0000_0000_0000_00) by {
        reveal_with_fuel(crate::der::pow256, 16);
    }
    crate::asn1_int::lemma_int_bytes_len(i, 16);
    lemma_length_bytes_len(int_bytes(i).len());
}

/// A second-format item whose unit is a valid PrintableString can be written.
proof fn lemma_v2_encodable(v: ItemV2View)
    requires
        printable(encode_utf8(v.unit)),
    ensures
        encodable(v2_value(v)),
{
    let a = Asn1Value::Integer(v.version as int);
    let b = Asn1Value::UTF8String(v.name);
    let c = Asn1Value::PrintableString(v.unit);
    let d = Asn1Value::Integer(v.quantity as int);
    let s0 = Seq::<Asn1Value>::empty();
    assert(crate::asn1::all_encodable(s0));
    lemma_encode_all_push(s0, a, 1);
    lemma_encode_all_push(seq![a], b, 1);
    lemma_encode_all_push(seq![a, b], c, 1);
    lemma_encode_all_push(seq![a, b, c], d, 1);
    assert(s0.push(a) =~= seq![a]);
    assert(seq![a].push(b) =~= seq![a, b]);
    assert(seq![a, b].push(c) =~= seq![a, b, c]);
    assert(seq![a, b, c].push(d) =~= seq![a, b, c, d]);
    if v.description is Some {
        lemma_encode_all_push(seq![a, b, c, d], Asn1Value::UTF8String(v.description->0), 1);
    }
}

} // verus!
