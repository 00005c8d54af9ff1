//! Pieces shared by the records: text fields, the outer SEQUENCE of a record,
//! and the errors that reading it reports.
use vstd::prelude::*;
use vstd::utf8::encode_utf8;
use vstd::slice::slice_to_vec;

use crate::asn1::{ASN1Element, Asn1Value, element_at, value_tag, values_of, lemma_values_of};
use crate::der::{length_read, tag_read};
use crate::der::{DERTag, tag_name};
use crate::errors::{DerError, DerFault, ShoppingItemError, ItemFault, fault_message};

verus! {

/// The length in bytes of the UTF-8 form of a string (what `String::len` counts).
pub open spec fn text_len(s: Seq<char>) -> nat {
    encode_utf8(s).len()
}

/// The characters of an optional string.
pub open spec fn opt_text(o: Option<String>) -> Option<Seq<char>> {
    match o {
        Some(s) => Some(s@),
        None => None,
    }
}

/// The bytes of an optional byte vector.
pub open spec fn opt_bytes(o: Option<Vec<u8>>) -> Option<Seq<u8>> {
    match o {
        Some(b) => Some(b@),
        None => None,
    }
}

/// A copy of a string.
pub fn clone_text(s: &String) -> (c: String)
    ensures
        c@ == s@,
{
    s.clone()
}

/// A copy of an optional string.
pub fn clone_opt_text(o: &Option<String>) -> (c: Option<String>)
    ensures
        opt_text(c) == opt_text(*o),
{
    match o {
        Some(s) => Some(s.clone()),
        None => None,
    }
}

/// A copy of an optional byte vector.
pub fn clone_opt_bytes(o: &Option<Vec<u8>>) -> (c: Option<Vec<u8>>)
    ensures
        opt_bytes(c) == opt_bytes(*o),
{
    match o {
        Some(b) => Some(slice_to_vec(b.as_slice())),
        None => None,
    }
}

/// The length in bytes of a string.
pub fn byte_len(s: &String) -> (n: usize)
    ensures
        n == text_len(s@),
{
    s.as_str().as_bytes().len()
}

/// The record error for a DER error met while doing what `prefix` names:
/// `prefix` followed by the DER error's message (whose end, for an I/O error,
/// is the operating system's text).
pub fn der_failure(prefix: &str, e: &DerError) -> (err: ShoppingItemError)
    ensures
        err is DerError,
        !(e@ is Io) ==> err@ == ItemFault::DerError(prefix@ + fault_message(e@)),
{
    let mut m = String::from_str(prefix);
    let text = e.message();
    m.append(text.as_str());
    ShoppingItemError::DerError { der_error: m }
}

/// The values of the outer SEQUENCE of a record, or the error reading it
/// reports: a DER error, an element that is not a SEQUENCE, or bytes left
/// after the SEQUENCE.
pub open spec fn outer_children(data: Seq<u8>) -> Result<Seq<Asn1Value>, ItemFault> {
    match element_at(data, 0, 0) {
        Err(f) => Err(ItemFault::DerError("Failed to parse outer SEQUENCE: "@ + fault_message(f))),
        Ok((Asn1Value::Sequence(cs), end)) => if end == data.len() {
            Ok(cs)
        } else {
            Err(ItemFault::DerError("Trailing data after outer SEQUENCE"@))
        },
        Ok((v, _)) => Err(ItemFault::DerError("Expected SEQUENCE, found "@ + tag_name(value_tag(v)))),
    }
}

/// A length field that reads in `data` reads the same with more bytes after.
proof fn lemma_length_read_prefix(data: Seq<u8>, extra: Seq<u8>, pos: int)
    requires
        0 <= pos,
        length_read(data, pos).0 is Ok,
    ensures
        length_read(data + extra, pos) == length_read(data, pos),
{
    let b = data + extra;
    assert(b[pos] == data[pos]);
    let first = data[pos];
    if first >= 128 {
        let n = first - 128;
        assert(b.subrange(pos + 1, pos + 1 + n) =~= data.subrange(pos + 1, pos + 1 + n));
    }
}

/// Bytes after a record are refused: when `data` holds a record's outer
/// SEQUENCE exactly, `data` followed by any more bytes is refused with the
/// trailing-data error.
pub proof fn law_trailing_data_refused(data: Seq<u8>, extra: Seq<u8>)
    requires
        outer_children(data) is Ok,
        extra.len() > 0,
    ensures
        outer_children(data + extra) == Err::<Seq<Asn1Value>, ItemFault>(
            ItemFault::DerError("Trailing data after outer SEQUENCE"@),
        ),
{
    let b = data + extra;
    assert(b[0] == data[0]);
    assert(tag_read(b, 0) == tag_read(data, 0));
    let p1 = tag_read(data, 0).1;
    lemma_length_read_prefix(data, extra, p1);
    let p2 = length_read(data, p1).1;
    let len = length_read(data, p1).0->Ok_0;
    assert(b.subrange(p2, p2 + len) =~= data.subrange(p2, p2 + len));
    assert(element_at(b, 0, 0) == element_at(data, 0, 0));
}

/// The view of a result holding the elements of the outer SEQUENCE.
pub open spec fn children_view(r: Result<Vec<ASN1Element>, ShoppingItemError>) -> Result<Seq<Asn1Value>, ItemFault> {
    match r {
        Ok(v) => Ok(values_of(v@)),
        Err(e) => Err(e@),
    }
}

/// Reads the outer SEQUENCE of a record, which must take up all of `data`,
/// and returns its elements.
pub fn read_outer_sequence(data: &[u8]) -> (res: Result<Vec<ASN1Element>, ShoppingItemError>)
    ensures
        children_view(res) == outer_children(data@),
{
    let (element, end) = match ASN1Element::from_der(data, 0) {
        Ok(result) => result,
        Err(e) => {
            proof {
                crate::asn1::lemma_element_not_io(data@, 0, 0);
            }
            return Err(der_failure("Failed to parse outer SEQUENCE: ", &e));
        },
    };
    match element {
        ASN1Element::Sequence(children) => if end == data.len() {
            Ok(children)
        } else {
            Err(ShoppingItemError::DerError { der_error: String::from_str("Trailing data after outer SEQUENCE") })
        },
        other => {
            let mut m = String::from_str("Expected SEQUENCE, found ");
            let name = other.tag().to_name();
            m.append(name.as_str());
            Err(ShoppingItemError::DerError { der_error: m })
        },
    }
}

/// The text of a UTF8String at `i`, if there is one there.
pub open spec fn utf8_at(cs: Seq<Asn1Value>, i: int) -> Option<Seq<char>> {
    if i < cs.len() {
        match cs[i] {
            Asn1Value::UTF8String(s) => Some(s),
            _ => None,
        }
    } else {
        None
    }
}

/// The text of a PrintableString at `i`, if there is one there.
pub open spec fn printable_at(cs: Seq<Asn1Value>, i: int) -> Option<Seq<char>> {
    if i < cs.len() {
        match cs[i] {
            Asn1Value::PrintableString(s) => Some(s),
            _ => None,
        }
    } else {
        None
    }
}

/// The bytes of an OCTET STRING at `i`, if there is one there.
pub open spec fn octets_at(cs: Seq<Asn1Value>, i: int) -> Option<Seq<u8>> {
    if i < cs.len() {
        match cs[i] {
            Asn1Value::OctetString(b) => Some(b),
            _ => None,
        }
    } else {
        None
    }
}

/// A copy of the text of the UTF8String at `i`, if there is one there.
pub fn take_utf8(children: &Vec<ASN1Element>, i: usize) -> (r: Option<String>)
    ensures
        opt_text(r) == utf8_at(values_of(children@), i as int),
{
    proof {
        lemma_values_of(children@);
    }
    if i < children.len() {
        match &children[i] {
            ASN1Element::UTF8String(s) => Some(s.clone()),
            _ => None,
        }
    } else {
        None
    }
}

/// A copy of the text of the PrintableString at `i`, if there is one there.
pub fn take_printable(children: &Vec<ASN1Element>, i: usize) -> (r: Option<String>)
    ensures
        opt_text(r) == printable_at(values_of(children@), i as int),
{
    proof {
        lemma_values_of(children@);
    }
    if i < children.len() {
        match &children[i] {
            ASN1Element::PrintableString(s) => Some(s.clone()),
            _ => None,
        }
    } else {
        None
    }
}

/// A copy of the bytes of the OCTET STRING at `i`, if there is one there.
pub fn take_octets(children: &Vec<ASN1Element>, i: usize) -> (r: Option<Vec<u8>>)
    ensures
        opt_bytes(r) == octets_at(values_of(children@), i as int),
{
    proof {
        lemma_values_of(children@);
    }
    if i < children.len() {
        match &children[i] {
            ASN1Element::OctetString(b) => Some(slice_to_vec(b.as_slice())),
            _ => None,
        }
    } else {
        None
    }
}

/// The error for the optional field at `i` of `cs`, which must be absent
/// (past the end or NULL) or have the tag `expected`: `None` when it is.
pub open spec fn optional_fault(cs: Seq<Asn1Value>, i: int, expected: DERTag) -> Option<ItemFault> {
    if 0 <= i < cs.len() && !(cs[i] is Null) && value_tag(cs[i]) != expected {
        Some(
            ItemFault::DerError(
                fault_message(
                    DerFault::UnexpectedTag {
                        expected: tag_name(expected),
                        found: tag_name(value_tag(cs[i])),
                    },
                ),
            ),
        )
    } else {
        None
    }
}

/// Checks that the optional field at `i` is absent (past the end or NULL) or
/// has the tag `expected`.
pub fn check_optional(children: &Vec<ASN1Element>, i: usize, expected: DERTag) -> (res: Result<(), ShoppingItemError>)
    ensures
        match optional_fault(values_of(children@), i as int, expected) {
            None => res is Ok,
            Some(f) => res matches Err(e) && e@ == f,
        },
{
    proof {
        lemma_values_of(children@);
    }
    if i < children.len() {
        let found = children[i].tag();
        let is_null = match &children[i] {
            ASN1Element::Null => true,
            _ => false,
        };
        if !is_null && found != expected {
            let e = DerError::UnexpectedTag { expected: expected.to_name(), found: found.to_name() };
            let m = e.message();
            return Err(ShoppingItemError::DerError { der_error: m });
        }
    }
    Ok(())
}

} // verus!
