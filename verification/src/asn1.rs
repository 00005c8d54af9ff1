//! ASN.1 abstraction layer: semantic elements and their DER form.
//!
//! Encoding path: record -> `ASN1Element` -> DER bytes.
//! Decoding path: DER bytes -> `ASN1Element` -> record.
use vstd::prelude::*;
use vstd::utf8::{valid_utf8, decode_utf8, encode_utf8};
use vstd::slice::slice_to_vec;

use crate::asn1_int::{int_bytes, int_value, int_minimal, encode_integer, decode_integer};
use crate::der::{DERTag, Parser, encode_length, length_bytes, tag_read, length_read, MAX_PARSE_SIZE};
use crate::errors::{DerError, DerFault};

verus! {

/// Maximum nesting depth for SEQUENCE parsing.
pub const MAX_PARSE_DEPTH: usize = 32;

/// High-level ASN.1 data types that carry semantic meaning.
#[derive(Debug, PartialEq)]
pub enum ASN1Element {
    Integer(i128),
    UTF8String(String),
    PrintableString(String),
    OctetString(Vec<u8>),
    Sequence(Vec<ASN1Element>),
    Null,
}

/// The mathematical value of an [`ASN1Element`].
pub enum Asn1Value {
    Integer(int),
    UTF8String(Seq<char>),
    PrintableString(Seq<char>),
    OctetString(Seq<u8>),
    Sequence(Seq<Asn1Value>),
    Null,
}

/// The value of an element.
pub open spec fn value_of(e: ASN1Element) -> Asn1Value
    decreases e,
{
    match e {
        ASN1Element::Integer(v) => Asn1Value::Integer(v as int),
        ASN1Element::UTF8String(s) => Asn1Value::UTF8String(s@),
        ASN1Element::PrintableString(s) => Asn1Value::PrintableString(s@),
        ASN1Element::OctetString(b) => Asn1Value::OctetString(b@),
        ASN1Element::Sequence(children) => Asn1Value::Sequence(values_of(children@)),
        ASN1Element::Null => Asn1Value::Null,
    }
}

/// The values of a sequence of elements.
pub open spec fn values_of(s: Seq<ASN1Element>) -> Seq<Asn1Value>
    decreases s,
{
    if s.len() == 0 {
        Seq::empty()
    } else {
        values_of(s.drop_last()).push(value_of(s.last()))
    }
}


impl View for ASN1Element {
    type V = Asn1Value;

    open spec fn view(&self) -> Asn1Value {
        value_of(*self)
    }
}

/// A value of a sequence of elements has one value per element, in order.
pub proof fn lemma_values_of(s: Seq<ASN1Element>)
    ensures
        values_of(s).len() == s.len(),
        forall|i: int| 0 <= i < s.len() ==> #[trigger] values_of(s)[i] == value_of(s[i]),
    decreases s.len(),
{
    if s.len() > 0 {
        lemma_values_of(s.drop_last());
    }
}

/// A byte of the PrintableString alphabet: letters, digits, space and `'+,-:=?`.
pub open spec fn printable_byte(b: u8) -> bool {
    ||| 65 <= b <= 90
    ||| 97 <= b <= 122
    ||| 48 <= b <= 57
    ||| b == 32
    ||| b == 39
    ||| b == 43
    ||| b == 44
    ||| b == 45
    ||| b == 58
    ||| b == 61
    ||| b == 63
}

/// Every byte is in the PrintableString alphabet.
pub open spec fn printable(s: Seq<u8>) -> bool {
    forall|i: int| 0 <= i < s.len() ==> #[trigger] printable_byte(s[i])
}

/// The DER tag of a value.
pub open spec fn value_tag(v: Asn1Value) -> DERTag {
    match v {
        Asn1Value::Integer(_) => DERTag::Integer,
        Asn1Value::UTF8String(_) => DERTag::UTF8String,
        Asn1Value::PrintableString(_) => DERTag::PrintableString,
        Asn1Value::OctetString(_) => DERTag::OctetString,
        Asn1Value::Sequence(_) => DERTag::Sequence,
        Asn1Value::Null => DERTag::Null,
    }
}

/// The value can be written: every PrintableString in it holds only
/// PrintableString characters.
pub open spec fn encodable(v: Asn1Value) -> bool
    decreases v, 0int,
{
    match v {
        Asn1Value::PrintableString(s) => printable(encode_utf8(s)),
        Asn1Value::Sequence(cs) => all_encodable(cs),
        _ => true,
    }
}

/// Every value of the sequence can be written.
pub open spec fn all_encodable(cs: Seq<Asn1Value>) -> bool
    decreases cs, 1int,
{
    if cs.len() == 0 {
        true
    } else {
        all_encodable(cs.drop_last()) && encodable(cs.last())
    }
}

/// The content octets of a value.
pub open spec fn content(v: Asn1Value) -> Seq<u8>
    decreases v, 0int,
{
    match v {
        Asn1Value::Integer(i) => int_bytes(i),
        Asn1Value::UTF8String(s) => encode_utf8(s),
        Asn1Value::PrintableString(s) => encode_utf8(s),
        Asn1Value::OctetString(b) => b,
        Asn1Value::Sequence(cs) => encode_all(cs),
        Asn1Value::Null => Seq::empty(),
    }
}

/// The DER encoding of a value: tag byte, length field, content.
pub open spec fn encoding(v: Asn1Value) -> Seq<u8>
    decreases v, 1int,
{
    seq![value_tag(v).spec_byte()] + length_bytes(content(v).len()) + content(v)
}

/// The encodings of a sequence of values, one after another.
pub open spec fn encode_all(cs: Seq<Asn1Value>) -> Seq<u8>
    decreases cs, 2int,
{
    if cs.len() == 0 {
        Seq::empty()
    } else {
        encode_all(cs.drop_last()) + encoding(cs.last())
    }
}

/// Where the element whose header starts at `pos` ends, as its length field
/// says (one past the tag when the length field does not read).
pub open spec fn header_end(buf: Seq<u8>, pos: int) -> int {
    match length_read(buf, pos + 1) {
        (Ok(n), p2) => p2 + n,
        (Err(_), _) => pos + 1,
    }
}

/// The outcome of decoding the element that starts at `pos` in `buf`, nested
/// `depth` sequences deep: its value and the position just past it, or the
/// error the decoder reports.
pub open spec fn element_at(buf: Seq<u8>, pos: nat, depth: nat) -> Result<(Asn1Value, int), DerFault>
    decreases buf.len(), 0int, 0int,
{
    if depth > MAX_PARSE_DEPTH {
        Err(DerFault::MaxDepthExceeded { max: MAX_PARSE_DEPTH as nat, depth })
    } else if pos > buf.len() {
        Err(DerFault::UnexpectedEndOfData { pos: buf.len() })
    } else {
        match tag_read(buf, pos as int) {
            (Err(e), _) => Err(e),
            (Ok(tag), p1) => match length_read(buf, p1) {
                (Err(e), _) => Err(e),
                (Ok(len), p2) => if p2 + len > buf.len() {
                    Err(DerFault::UnexpectedEndOfData { pos: buf.len() })
                } else {
                    let c = buf.subrange(p2, p2 + len);
                    let end = p2 + len;
                    match tag {
                        DERTag::Integer => if len == 0 {
                            Err(DerFault::UnexpectedEndOfData { pos })
                        } else if !int_minimal(c) {
                            Err(DerFault::NonMinimalEncoding { field: "integer"@ })
                        } else if c.len() > 16 {
                            Err(DerFault::IntConversion)
                        } else {
                            Ok((Asn1Value::Integer(int_value(c)), end))
                        },
                        DERTag::UTF8String => if valid_utf8(c) {
                            Ok((Asn1Value::UTF8String(decode_utf8(c)), end))
                        } else {
                            Err(DerFault::InvalidUtf8)
                        },
                        DERTag::OctetString => Ok((Asn1Value::OctetString(c), end)),
                        DERTag::PrintableString => if !printable(c) {
                            Err(DerFault::InvalidPrintableString)
                        } else if valid_utf8(c) {
                            Ok((Asn1Value::PrintableString(decode_utf8(c)), end))
                        } else {
                            Err(DerFault::InvalidUtf8)
                        },
                        DERTag::Null => Ok((Asn1Value::Null, end)),
                        DERTag::Sequence => match children_at(c, 0, depth + 1) {
                            Ok(cs) => Ok((Asn1Value::Sequence(cs), end)),
                            Err(e) => Err(e),
                        },
                        DERTag::ErrUnknown(b) => Err(DerFault::UnknownTag { found: b }),
                    }
                },
            },
        }
    }
}

/// The outcome of decoding the elements of a sequence's content `c` from
/// `cursor` to its end.
pub open spec fn children_at(c: Seq<u8>, cursor: nat, depth: nat) -> Result<Seq<Asn1Value>, DerFault>
    decreases c.len(), 1int, (if cursor < c.len() { c.len() - cursor } else { 0 }),
{
    if cursor >= c.len() {
        Ok(Seq::empty())
    } else {
        match element_at(c, cursor, depth) {
            Err(e) => Err(e),
            Ok((v, _)) => match children_at(c, header_end(c, cursor as int) as nat, depth) {
                Err(e) => Err(e),
                Ok(rest) => Ok(seq![v] + rest),
            },
        }
    }
}

/// `s` followed by the values of `r`, or the error of `r`.
pub open spec fn prepend_values(s: Seq<Asn1Value>, r: Result<Seq<Asn1Value>, DerFault>) -> Result<
    Seq<Asn1Value>,
    DerFault,
> {
    match r {
        Ok(t) => Ok(s + t),
        Err(e) => Err(e),
    }
}

/// The view of a decoder result.
pub open spec fn decoded(res: Result<(ASN1Element, usize), DerError>) -> Result<(Asn1Value, int), DerFault> {
    match res {
        Ok((e, p)) => Ok((e@, p as int)),
        Err(e) => Err(e@),
    }
}

/// An element that decodes ends where its length field says, after its start,
/// and within the buffer.
pub proof fn lemma_element_end(buf: Seq<u8>, pos: nat, depth: nat)
    requires
        element_at(buf, pos, depth) is Ok,
    ensures
        element_at(buf, pos, depth)->Ok_0.1 == header_end(buf, pos as int),
        pos < element_at(buf, pos, depth)->Ok_0.1 <= buf.len(),
{
}

/// The element whose header starts at `pos` is a NULL with a non-zero length
/// field, or a SEQUENCE whose content holds such a NULL at any depth. The
/// decoder accepts such a NULL and skips its content.
pub open spec fn padded_null_at(buf: Seq<u8>, pos: int) -> bool
    decreases buf.len(), 0int, 0int,
{
    if pos < 0 || pos >= buf.len() {
        false
    } else {
        match tag_read(buf, pos) {
            (Ok(DERTag::Null), p1) => match length_read(buf, p1) {
                (Ok(len), _) => len > 0,
                _ => false,
            },
            (Ok(DERTag::Sequence), p1) => match length_read(buf, p1) {
                (Ok(len), p2) => if 0 < len && p2 + len <= buf.len() {
                    padded_null_in(buf.subrange(p2, p2 + len), 0)
                } else {
                    false
                },
                _ => false,
            },
            _ => false,
        }
    }
}

/// Some element of the sequence content `c`, read from `cursor` to its end, is
/// or holds a NULL with a non-zero length field.
pub open spec fn padded_null_in(c: Seq<u8>, cursor: nat) -> bool
    decreases c.len(), 1int, (if cursor < c.len() { c.len() - cursor } else { 0 }),
{
    if cursor >= c.len() {
        false
    } else {
        padded_null_at(c, cursor as int) || padded_null_in(c, header_end(c, cursor as int) as nat)
    }
}

/// Checks that every byte of the string is in the PrintableString alphabet:
/// `A`–`Z`, `a`–`z`, `0`–`9`, space, `'`, `+`, `,`, `-`, `:`, `=`, `?`.
pub fn is_valid_printable_string(s: &str) -> (b: bool)
    ensures
        b == printable(encode_utf8(s@)),
{
    is_valid_printable_string_bytes(s.as_bytes())
}

/// Checks that every byte is in the PrintableString alphabet.
pub fn is_valid_printable_string_bytes(bytes: &[u8]) -> (ok: bool)
    ensures
        ok == printable(bytes@),
{
    let mut i: usize = 0;
    while i < bytes.len()
        invariant
            i <= bytes@.len(),
            forall|j: int| 0 <= j < i ==> #[trigger] printable_byte(bytes@[j]),
        decreases bytes@.len() - i,
    {
        let b = bytes[i];
        if !((b >= 65 && b <= 90) || (b >= 97 && b <= 122) || (b >= 48 && b <= 57) || b == 32
            || b == 39 || b == 43 || b == 44 || b == 45 || b == 58 || b == 61 || b == 63) {
            assert(!printable_byte(bytes@[i as int]));
            return false;
        }
        i = i + 1;
    }
    true
}

/// `String::from_utf8`: takes the bytes as a string when they are valid UTF-8,
/// the string's characters being their decoding, and fails otherwise. Validity
/// and decoding are vstd's `valid_utf8` and `decode_utf8`.
#[verifier::external_body]
pub(crate) fn string_from_utf8(bytes: Vec<u8>) -> (res: Result<String, std::string::FromUtf8Error>)
    ensures
        res is Ok <==> valid_utf8(bytes@),
        res matches Ok(s) ==> s@ == decode_utf8(bytes@),
{
    String::from_utf8(bytes)
}


impl ASN1Element {
    /// Returns the DER tag for this element.
    pub fn tag(&self) -> (t: DERTag)
        ensures
            t == value_tag(self@),
    {
        match self {
            ASN1Element::Integer(_) => DERTag::Integer,
            ASN1Element::UTF8String(_) => DERTag::UTF8String,
            ASN1Element::PrintableString(_) => DERTag::PrintableString,
            ASN1Element::OctetString(_) => DERTag::OctetString,
            ASN1Element::Sequence(_) => DERTag::Sequence,
            ASN1Element::Null => DERTag::Null,
        }
    }

    /// Encodes this element into DER bytes. Fails, with
    /// `InvalidPrintableString`, exactly when some PrintableString in it holds
    /// a character outside the PrintableString alphabet.
    pub fn to_der(&self) -> (res: Result<Vec<u8>, DerError>)
        ensures
            match res {
                Ok(b) => encodable(self@) && b@ == encoding(self@),
                Err(e) => !encodable(self@) && e@ == DerFault::InvalidPrintableString,
            },
        decreases self,
    {
        let tag = self.tag();
        let mut blob: Vec<u8> = Vec::new();
        blob.push(tag.to_byte());
        let mut value_bytes: Vec<u8> = match self {
            ASN1Element::Integer(value) => encode_integer(*value),
            ASN1Element::PrintableString(s) => {
                if !is_valid_printable_string(s.as_str()) {
                    return Err(DerError::InvalidPrintableString);
                }
                slice_to_vec(s.as_str().as_bytes())
            },
            ASN1Element::UTF8String(s) => slice_to_vec(s.as_str().as_bytes()),
            ASN1Element::OctetString(bytes) => slice_to_vec(bytes.as_slice()),
            ASN1Element::Sequence(elements) => {
                let ghost vals = values_of(elements@);
                proof {
                    lemma_values_of(elements@);
                }
                let mut inner: Vec<u8> = Vec::new();
                let mut i: usize = 0;
                while i < elements.len()
                    invariant
                        *self == ASN1Element::Sequence(*elements),
                        vals == values_of(elements@),
                        vals.len() == elements@.len(),
                        forall|j: int| 0 <= j < elements@.len() ==> #[trigger] vals[j] == value_of(elements@[j]),
                        i <= elements@.len(),
                        all_encodable(vals.take(i as int)),
                        inner@ == encode_all(vals.take(i as int)),
                    decreases elements@.len() - i,
                {
                    let ghost before = vals.take(i as int);
                    proof {
                        assert(decreases_to!(*self => *elements));
                        assert(decreases_to!(*elements => elements@));
                        assert(decreases_to!(elements@ => elements@[i as int]));
                        assert(decreases_to!(*self => elements@[i as int]));
                    }
                    let mut enc = match elements[i].to_der() {
                        Ok(enc) => enc,
                        Err(e) => {
                            proof {
                                lemma_all_encodable_index(vals, i as int);
                                assert(self@ == Asn1Value::Sequence(vals));
                                assert(!encodable(self@));
                            }
                            return Err(e);
                        },
                    };
                    inner.append(&mut enc);
                    proof {
                        assert(vals.take(i + 1).drop_last() =~= before);
                        assert(vals.take(i + 1).last() == vals[i as int]);
                    }
                    i = i + 1;
                }
                proof {
                    assert(vals.take(i as int) =~= vals);
                }
                inner
            },
            ASN1Element::Null => Vec::new(),
        };
        let mut length_field = encode_length(value_bytes.len());
        blob.append(&mut length_field);
        blob.append(&mut value_bytes);
        Ok(blob)
    }
}

impl ASN1Element {
    /// A copy of the element, children included.
    fn copy_element(&self) -> (c: ASN1Element)
        ensures
            c@ == self@,
        decreases self,
    {
        match self {
            ASN1Element::Integer(v) => ASN1Element::Integer(*v),
            ASN1Element::UTF8String(s) => ASN1Element::UTF8String(s.clone()),
            ASN1Element::PrintableString(s) => ASN1Element::PrintableString(s.clone()),
            ASN1Element::OctetString(b) => ASN1Element::OctetString(slice_to_vec(b.as_slice())),
            ASN1Element::Sequence(elements) => {
                let mut out: Vec<ASN1Element> = Vec::new();
                let mut i: usize = 0;
                while i < elements.len()
                    invariant
                        *self == ASN1Element::Sequence(*elements),
                        i <= elements@.len(),
                        out@.len() == i,
                        forall|j: int| 0 <= j < i ==> #[trigger] out@[j]@ == elements@[j]@,
                    decreases elements@.len() - i,
                {
                    proof {
                        assert(decreases_to!(*self => self->Sequence_0));
                        assert(decreases_to!(self->Sequence_0 => self->Sequence_0@));
                        assert(decreases_to!(self->Sequence_0@ => self->Sequence_0@[i as int]));
                    }
                    let e = elements[i].copy_element();
                    out.push(e);
                    i = i + 1;
                }
                proof {
                    lemma_values_of(out@);
                    lemma_values_of(elements@);
                    assert forall|j: int| 0 <= j < out@.len() implies values_of(out@)[j] == values_of(elements@)[j] by {
                        assert(out@[j]@ == elements@[j]@);
                    }
                    assert(values_of(out@) =~= values_of(elements@));
                }
                ASN1Element::Sequence(out)
            },
            ASN1Element::Null => ASN1Element::Null,
        }
    }
}

impl Clone for ASN1Element {
    /// A copy of the element, children included.
    fn clone(&self) -> (c: Self)
        ensures
            c@ == self@,
    {
        self.copy_element()
    }
}

impl ASN1Element {
    /// Decodes a DER-encoded element from `buffer` starting at `pos`.
    /// Returns the element and the position just past it.
    pub fn from_der(buffer: &[u8], pos: usize) -> (res: Result<(Self, usize), DerError>)
        ensures
            decoded(res) == element_at(buffer@, pos as nat, 0),
    {
        Self::from_der_with_depth(buffer, pos, 0)
    }

    fn from_der_with_depth(buffer: &[u8], pos: usize, depth: usize) -> (res: Result<(Self, usize), DerError>)
        ensures
            decoded(res) == element_at(buffer@, pos as nat, depth as nat),
        decreases buffer@.len(),
    {
        if depth > MAX_PARSE_DEPTH {
            return Err(DerError::MaxDepthExceeded { max: MAX_PARSE_DEPTH, depth });
        }
        let mut parser = Parser::new(buffer);
        // Skip to the right position
        let mut k: usize = 0;
        while k < pos
            invariant
                parser.data() == buffer@,
                parser.total() == 0,
                parser.position() == k,
                depth <= MAX_PARSE_DEPTH,
                k <= pos,
                k <= buffer@.len(),
            decreases pos - k,
        {
            parser.next()?;
            k = k + 1;
        }
        let tag = parser.read_tag()?;
        let length = parser.read_length()?;
        let value = parser.read_value(length)?;
        let new_pos = parser.read_pos();
        let ghost p2 = length_read(buffer@, pos + 1).1;
        proof {
            if length > 0 {
                assert(p2 + length <= buffer@.len());
            }
        }
        match tag {
            DERTag::Integer => {
                let bytes = match value {
                    Some(b) => b,
                    None => return Err(DerError::UnexpectedEndOfData { pos }),
                };
                if !is_minimal_integer(&bytes) {
                    return Err(DerError::NonMinimalEncoding { field: "integer" });
                }
                if bytes.len() > 16 {
                    return Err(DerError::IntConversion);
                }
                let result = decode_integer(bytes.as_slice());
                Ok((ASN1Element::Integer(result), new_pos))
            },
            DERTag::UTF8String => {
                let bytes = match value {
                    Some(b) => b,
                    None => Vec::new(),
                };
                match string_from_utf8(bytes) {
                    Ok(s) => Ok((ASN1Element::UTF8String(s), new_pos)),
                    Err(e) => Err(DerError::InvalidUtf8(e)),
                }
            },
            DERTag::OctetString => {
                let bytes = match value {
                    Some(b) => b,
                    None => Vec::new(),
                };
                assert(bytes@ =~= buffer@.subrange(p2, p2 + length));
                Ok((ASN1Element::OctetString(bytes), new_pos))
            },
            DERTag::PrintableString => {
                let bytes = match value {
                    Some(b) => b,
                    None => Vec::new(),
                };
                if !is_valid_printable_string_bytes(bytes.as_slice()) {
                    return Err(DerError::InvalidPrintableString);
                }
                match string_from_utf8(bytes) {
                    Ok(s) => Ok((ASN1Element::PrintableString(s), new_pos)),
                    Err(e) => Err(DerError::InvalidUtf8(e)),
                }
            },
            DERTag::Null => {
                // NULL has no value payload
                Ok((ASN1Element::Null, new_pos))
            },
            DERTag::Sequence => {
                let bytes = match value {
                    Some(b) => b,
                    None => Vec::new(),
                };
                let ghost d = (depth + 1) as nat;
                let mut elements: Vec<ASN1Element> = Vec::new();
                let mut cursor: usize = 0;
                while cursor < bytes.len()
                    invariant
                        bytes@.len() < buffer@.len(),
                        depth <= MAX_PARSE_DEPTH,
                        element_at(buffer@, pos as nat, depth as nat) == match children_at(bytes@, 0, d) {
                            Ok(cs) => Ok((Asn1Value::Sequence(cs), new_pos as int)),
                            Err(e) => Err(e),
                        },
                        d == depth + 1,
                        cursor <= bytes@.len(),
                        children_at(bytes@, 0, d) == prepend_values(
                            values_of(elements@),
                            children_at(bytes@, cursor as nat, d),
                        ),
                    decreases bytes@.len() - cursor,
                {
                    let ghost before = elements@;
                    let (elem, next) = match Self::from_der_with_depth(&bytes, cursor, depth + 1) {
                        Ok(r) => r,
                        Err(e) => {
                            proof {
                                assert(children_at(bytes@, cursor as nat, d) == Err::<Seq<Asn1Value>, DerFault>(e@));
                            }
                            return Err(e);
                        },
                    };
                    proof {
                        lemma_element_end(bytes@, cursor as nat, d);
                    }
                    elements.push(elem);
                    proof {
                        assert(elements@.drop_last() == before);
                        assert(values_of(elements@) == values_of(before).push(elem@));
                        assert(values_of(before) + (seq![elem@] + children_at(
                            bytes@,
                            next as nat,
                            d,
                        )->Ok_0) =~= values_of(elements@) + children_at(bytes@, next as nat, d)->Ok_0);
                    }
                    cursor = next;
                }
                Ok((ASN1Element::Sequence(elements), new_pos))
            },
            _ => Err(DerError::UnknownTag { found: tag.to_byte() }),
        }
    }
}

/// The byte string is the shortest two's-complement form of its value.
fn is_minimal_integer(bytes: &Vec<u8>) -> (ok: bool)
    ensures
        ok == int_minimal(bytes@),
{
    if bytes.len() == 0 {
        return false;
    }
    if bytes.len() >= 2 {
        if bytes[0] == 0 && bytes[1] < 128 {
            return false;
        }
        if bytes[0] == 0xff && bytes[1] >= 128 {
            return false;
        }
    }
    true
}

/// The value reads back from its encoding when decoded `depth` sequences deep:
/// it is nested no deeper than the decoder allows, every content is at most
/// `MAX_PARSE_SIZE` bytes, every PrintableString can be written, and every
/// INTEGER fits 128 bits.
pub open spec fn decodable(v: Asn1Value, depth: nat) -> bool
    decreases v, 0int,
{
    &&& depth <= MAX_PARSE_DEPTH
    &&& content(v).len() <= MAX_PARSE_SIZE
    &&& match v {
        Asn1Value::Integer(i) => -0x8000_0000_0000_0000_0000_0000_0000_0000 <= i
            < 0x8000_0000_0000_0000_0000_0000_0000_0000,
        Asn1Value::UTF8String(_) => true,
        Asn1Value::PrintableString(s) => printable(encode_utf8(s)),
        Asn1Value::OctetString(_) => true,
        Asn1Value::Sequence(cs) => all_decodable(cs, depth + 1),
        Asn1Value::Null => true,
    }
}

/// Every value of the sequence reads back from its encoding `depth` deep.
pub open spec fn all_decodable(cs: Seq<Asn1Value>, depth: nat) -> bool
    decreases cs, 1int,
{
    if cs.len() == 0 {
        true
    } else {
        all_decodable(cs.drop_last(), depth) && decodable(cs.last(), depth)
    }
}

proof fn lemma_all_decodable_index(cs: Seq<Asn1Value>, depth: nat, i: int)
    requires
        all_decodable(cs, depth),
        0 <= i < cs.len(),
    ensures
        decodable(cs[i], depth),
    decreases cs.len(),
{
    if i < cs.len() - 1 {
        lemma_all_decodable_index(cs.drop_last(), depth, i);
    }
}

/// Encodings of a concatenation are the concatenation of the encodings.
proof fn lemma_encode_all_concat(a: Seq<Asn1Value>, b: Seq<Asn1Value>)
    ensures
        encode_all(a + b) == encode_all(a) + encode_all(b),
    decreases b.len(),
{
    if b.len() == 0 {
        assert(a + b =~= a);
    } else {
        lemma_encode_all_concat(a, b.drop_last());
        assert((a + b).drop_last() =~= a + b.drop_last());
        assert((a + b).last() == b.last());
    }
}

/// Decoding the bytes of `buf` from `pos` that hold the encoding of `v` gives
/// `v` back and ends just past the encoding.
pub proof fn lemma_element_roundtrip(buf: Seq<u8>, pos: nat, v: Asn1Value, depth: nat)
    requires
        decodable(v, depth),
        pos + encoding(v).len() <= buf.len(),
        buf.subrange(pos as int, pos + encoding(v).len() as int) == encoding(v),
    ensures
        element_at(buf, pos, depth) == Ok::<(Asn1Value, int), DerFault>(
            (v, pos + encoding(v).len() as int),
        ),
    decreases v, 0int, 0int,
{
    let p: int = pos as int;
    let c = content(v);
    let lb = length_bytes(c.len());
    let enc = encoding(v);
    let n: int = enc.len() as int;
    let tag = value_tag(v);
    let lbn: int = lb.len() as int;
    let cn: int = c.len() as int;
    assert(enc =~= seq![tag.spec_byte()] + lb + c);
    assert(buf[p] == buf.subrange(p, p + n)[0]);
    crate::der::law_tag_byte_roundtrip(tag, 0);
    assert(tag_read(buf, p) == (Ok::<DERTag, DerFault>(tag), p + 1));
    assert(buf.subrange(p + 1, p + 1 + lbn) =~= lb) by {
        assert forall|i: int| 0 <= i < lbn implies buf.subrange(p + 1, p + 1 + lbn)[i] == lb[i] by {
            assert(buf.subrange(p, p + n)[1 + i] == enc[1 + i]);
        }
    }
    crate::der::law_length_roundtrip(buf, p + 1, c.len());
    let p2: int = p + 1 + lbn;
    assert(buf.subrange(p2, p2 + cn) =~= c) by {
        assert forall|i: int| 0 <= i < cn implies buf.subrange(p2, p2 + cn)[i] == c[i] by {
            assert(buf.subrange(p, p + n)[1 + lbn + i] == enc[1 + lbn + i]);
        }
    }
    match v {
        Asn1Value::Integer(i) => {
            crate::asn1_int::lemma_int_bytes(i);
            assert(crate::der::pow256(15) == 0x1_0000_0000_0000_0000_0000_0000_0000_00) by {
                reveal_with_fuel(crate::der::pow256, 16);
            }
            crate::asn1_int::lemma_int_bytes_len(i, 16);
        },
        Asn1Value::UTF8String(s) => {
            vstd::utf8::encode_utf8_valid_utf8(s);
            vstd::utf8::encode_utf8_decode_utf8(s);
        },
        Asn1Value::PrintableString(s) => {
            vstd::utf8::encode_utf8_valid_utf8(s);
            vstd::utf8::encode_utf8_decode_utf8(s);
        },
        Asn1Value::OctetString(b) => {},
        Asn1Value::Sequence(cs) => {
            lemma_children_roundtrip(cs, 0, depth + 1);
            assert(cs.take(0) =~= Seq::<Asn1Value>::empty());
            assert(cs.skip(0) =~= cs);
        },
        Asn1Value::Null => {},
    }
}

/// Decoding the concatenated encodings of `cs` from the end of the first `i`
/// of them gives the rest of `cs` back.
proof fn lemma_children_roundtrip(cs: Seq<Asn1Value>, i: int, depth: nat)
    requires
        all_decodable(cs, depth),
        0 <= i <= cs.len(),
    ensures
        children_at(encode_all(cs), encode_all(cs.take(i)).len(), depth) == Ok::<Seq<Asn1Value>, DerFault>(
            cs.skip(i),
        ),
    decreases cs, 1int, cs.len() - i,
{
    let c = encode_all(cs);
    let cursor: nat = encode_all(cs.take(i)).len();
    lemma_encode_all_concat(cs.take(i), cs.skip(i));
    assert(cs.take(i) + cs.skip(i) =~= cs);
    if i == cs.len() {
        assert(cs.skip(i) =~= Seq::<Asn1Value>::empty());
    } else {
        let v = cs[i];
        lemma_all_decodable_index(cs, depth, i);
        let rest = cs.skip(i + 1);
        assert(cs.skip(i) =~= seq![v] + rest);
        lemma_encode_all_concat(seq![v], rest);
        assert(encode_all(seq![v]) =~= encoding(v)) by {
            assert(seq![v].drop_last() =~= Seq::<Asn1Value>::empty());
            assert(encode_all(Seq::<Asn1Value>::empty()) == Seq::<u8>::empty());
            assert(seq![v].last() == v);
            assert(encode_all(seq![v]) == encode_all(Seq::<Asn1Value>::empty()) + encoding(v));
        }
        let enc = encoding(v);
        assert(c =~= encode_all(cs.take(i)) + enc + encode_all(rest));
        assert(c.subrange(cursor as int, cursor + enc.len() as int) =~= enc);
        lemma_element_roundtrip(c, cursor, v, depth);
        lemma_element_end(c, cursor, depth);
        assert(cs.take(i + 1) =~= cs.take(i).push(v));
        assert(encode_all(cs.take(i + 1)) == encode_all(cs.take(i)) + enc) by {
            assert(cs.take(i + 1).drop_last() =~= cs.take(i));
        }
        lemma_children_roundtrip(cs, i + 1, depth);
        assert(enc.len() > 0);
    }
}

/// Decoding what [`ASN1Element::to_der`] writes gives the element back and
/// consumes exactly the encoding, for every value the decoder can hold (see
/// [`decodable`]).
pub proof fn law_der_roundtrip(v: Asn1Value)
    requires
        decodable(v, 0),
    ensures
        element_at(encoding(v), 0, 0) == Ok::<(Asn1Value, int), DerFault>((v, encoding(v).len() as int)),
{
    assert(encoding(v).subrange(0, encoding(v).len() as int) =~= encoding(v));
    lemma_element_roundtrip(encoding(v), 0, v, 0);
}

/// How many SEQUENCEs are nested in a value: none for a primitive value, one
/// more than the deepest of its elements for a SEQUENCE.
pub open spec fn nesting(v: Asn1Value) -> nat
    decreases v, 0int,
{
    match v {
        Asn1Value::Sequence(cs) => 1 + max_nesting(cs),
        _ => 0,
    }
}

/// The deepest nesting among the values of a sequence (zero when it is empty).
pub open spec fn max_nesting(cs: Seq<Asn1Value>) -> nat
    decreases cs, 1int,
{
    if cs.len() == 0 {
        0
    } else {
        let a = max_nesting(cs.drop_last());
        let b = nesting(cs.last());
        if a >= b {
            a
        } else {
            b
        }
    }
}

proof fn lemma_max_nesting_index(cs: Seq<Asn1Value>, i: int)
    requires
        0 <= i < cs.len(),
    ensures
        nesting(cs[i]) <= max_nesting(cs),
    decreases cs.len(),
{
    if i < cs.len() - 1 {
        lemma_max_nesting_index(cs.drop_last(), i);
    }
}

proof fn lemma_encode_all_index_len(cs: Seq<Asn1Value>, i: int)
    requires
        0 <= i < cs.len(),
    ensures
        encoding(cs[i]).len() <= encode_all(cs).len(),
    decreases cs.len(),
{
    if i < cs.len() - 1 {
        lemma_encode_all_index_len(cs.drop_last(), i);
    }
}

proof fn lemma_all_decodable_from_each(cs: Seq<Asn1Value>, depth: nat)
    requires
        forall|i: int| 0 <= i < cs.len() ==> #[trigger] decodable(cs[i], depth),
    ensures
        all_decodable(cs, depth),
    decreases cs.len(),
{
    if cs.len() > 0 {
        let p = cs.drop_last();
        assert forall|i: int| 0 <= i < p.len() implies #[trigger] decodable(p[i], depth) by {
            assert(p[i] == cs[i]);
        }
        lemma_all_decodable_from_each(p, depth);
        assert(decodable(cs[cs.len() - 1], depth));
    }
}

/// An element that can be written, whose every content fits the size limit and
/// that sits `depth` SEQUENCEs deep with at most `MAX_PARSE_DEPTH` levels in
/// all, reads back from its encoding at that depth.
proof fn lemma_element_decodable(e: ASN1Element, depth: nat)
    requires
        encodable(e@),
        content(e@).len() <= MAX_PARSE_SIZE,
        depth + nesting(e@) <= MAX_PARSE_DEPTH,
    ensures
        decodable(e@, depth),
    decreases e,
{
    if let ASN1Element::Sequence(children) = e {
        let cs = values_of(children@);
        lemma_values_of(children@);
        assert forall|i: int| 0 <= i < cs.len() implies #[trigger] decodable(cs[i], depth + 1) by {
            let c = children@[i];
            assert(cs[i] == c@);
            if !encodable(cs[i]) {
                lemma_all_encodable_index(cs, i);
            }
            lemma_encode_all_index_len(cs, i);
            lemma_max_nesting_index(cs, i);
            assert(content(c@).len() <= encoding(c@).len());
            assert(decreases_to!(e => e->Sequence_0));
            assert(decreases_to!(e->Sequence_0 => e->Sequence_0@));
            assert(decreases_to!(e->Sequence_0@ => e->Sequence_0@[i]));
            lemma_element_decodable(c, depth + 1);
        }
        lemma_all_decodable_from_each(cs, depth + 1);
    }
}

/// Whatever [`ASN1Element::to_der`] writes, within the size limit and with at
/// most `MAX_PARSE_DEPTH` nested SEQUENCEs, [`ASN1Element::from_der`] reads
/// back as the same element, ending just past the encoding, wherever the
/// encoding stands among other bytes.
pub proof fn law_written_reads_back(e: ASN1Element, before: Seq<u8>, after: Seq<u8>)
    requires
        encodable(e@),
        encoding(e@).len() <= MAX_PARSE_SIZE,
        nesting(e@) <= MAX_PARSE_DEPTH,
    ensures
        decodable(e@, 0),
        element_at(encoding(e@), 0, 0) == Ok::<(Asn1Value, int), DerFault>((e@, encoding(e@).len() as int)),
        element_at(before + encoding(e@) + after, before.len(), 0) == Ok::<(Asn1Value, int), DerFault>(
            (e@, (before.len() + encoding(e@).len()) as int),
        ),
{
    let enc = encoding(e@);
    assert(content(e@).len() <= enc.len());
    lemma_element_decodable(e, 0);
    law_der_roundtrip(e@);
    let buf = before + enc + after;
    assert(buf.subrange(before.len() as int, (before.len() + enc.len()) as int) =~= enc);
    lemma_element_roundtrip(buf, before.len(), e@, 0);
}

/// A value in front of a sequence of values: the encodings and writability of
/// the longer sequence.
pub proof fn lemma_encode_all_prepend(v: Asn1Value, rest: Seq<Asn1Value>)
    ensures
        encode_all(seq![v] + rest) == encoding(v) + encode_all(rest),
        all_encodable(seq![v] + rest) == (encodable(v) && all_encodable(rest)),
    decreases rest.len(),
{
    if rest.len() == 0 {
        let e = Seq::<Asn1Value>::empty();
        assert(seq![v] + rest =~= seq![v]);
        assert(seq![v].drop_last() =~= e);
        assert(seq![v].last() == v);
        assert(encode_all(e) == Seq::<u8>::empty());
        assert(all_encodable(e));
        assert(encode_all(seq![v]) == encode_all(e) + encoding(v));
        assert(encoding(v) + encode_all(rest) =~= encoding(v));
        assert(encode_all(seq![v]) =~= encoding(v));
    } else {
        lemma_encode_all_prepend(v, rest.drop_last());
        assert((seq![v] + rest).drop_last() =~= seq![v] + rest.drop_last());
        assert((seq![v] + rest).last() == rest.last());
    }
}

/// The element decoded at `pos` can be written again, and, when no NULL in it
/// carries content, its encoding is exactly the bytes it was read from.
proof fn lemma_element_canonical(buf: Seq<u8>, pos: nat, depth: nat)
    requires
        element_at(buf, pos, depth) is Ok,
    ensures
        encodable(element_at(buf, pos, depth)->Ok_0.0),
        !padded_null_at(buf, pos as int) ==> buf.subrange(pos as int, element_at(buf, pos, depth)->Ok_0.1)
            == encoding(element_at(buf, pos, depth)->Ok_0.0),
    decreases buf.len(), 0int, 0int,
{
    let v = element_at(buf, pos, depth)->Ok_0.0;
    let end = element_at(buf, pos, depth)->Ok_0.1;
    let p = pos as int;
    let tag = tag_read(buf, p).0->Ok_0;
    let p1 = p + 1;
    crate::der::law_tag_byte_roundtrip(tag, buf[p]);
    let len = length_read(buf, p1).0->Ok_0;
    let p2 = length_read(buf, p1).1;
    crate::der::law_length_unique(buf, p1);
    let c = buf.subrange(p2, p2 + len);
    match tag {
        DERTag::Integer => {
            crate::asn1_int::lemma_int_value_minimal(c);
        },
        DERTag::UTF8String => {
            vstd::utf8::decode_utf8_encode_utf8(c);
        },
        DERTag::PrintableString => {
            vstd::utf8::decode_utf8_encode_utf8(c);
        },
        DERTag::Sequence => {
            lemma_children_canonical(c, 0, depth + 1);
            assert(c.subrange(0, c.len() as int) =~= c);
        },
        DERTag::Null => {
            if len == 0 {
                assert(c =~= Seq::<u8>::empty());
            }
        },
        _ => {},
    }
    if !padded_null_at(buf, p) {
        assert(content(v) == c);
        assert(buf.subrange(p, end) =~= seq![buf[p]] + buf.subrange(p1, p2) + c);
    }
}

/// The elements decoded from `cursor` to the end of the content `c` can be
/// written again, and, when no NULL in them carries content, their encodings
/// are exactly those bytes.
proof fn lemma_children_canonical(c: Seq<u8>, cursor: nat, depth: nat)
    requires
        cursor <= c.len(),
        children_at(c, cursor, depth) is Ok,
    ensures
        all_encodable(children_at(c, cursor, depth)->Ok_0),
        !padded_null_in(c, cursor) ==> encode_all(children_at(c, cursor, depth)->Ok_0) == c.subrange(
            cursor as int,
            c.len() as int,
        ),
    decreases c.len(), 1int, c.len() - cursor,
{
    if cursor == c.len() {
        assert(c.subrange(cursor as int, c.len() as int) =~= Seq::<u8>::empty());
    } else {
        let v = element_at(c, cursor, depth)->Ok_0.0;
        let e = element_at(c, cursor, depth)->Ok_0.1;
        lemma_element_end(c, cursor, depth);
        lemma_element_canonical(c, cursor, depth);
        lemma_children_canonical(c, e as nat, depth);
        let rest = children_at(c, e as nat, depth)->Ok_0;
        lemma_encode_all_prepend(v, rest);
        if !padded_null_in(c, cursor) {
            assert(c.subrange(cursor as int, c.len() as int) =~= c.subrange(cursor as int, e) + c.subrange(
                e,
                c.len() as int,
            ));
        }
    }
}

/// DER is distinguished: every element the decoder accepts can be written again
/// by [`ASN1Element::to_der`], and what it writes is exactly the bytes the
/// element was read from, unless a NULL in it has a non-zero length field (the
/// decoder accepts such a NULL and skips its content).
pub proof fn law_der_canonical(buf: Seq<u8>, pos: nat)
    requires
        element_at(buf, pos, 0) is Ok,
    ensures
        encodable(element_at(buf, pos, 0)->Ok_0.0),
        !padded_null_at(buf, pos as int) ==> buf.subrange(pos as int, element_at(buf, pos, 0)->Ok_0.1)
            == encoding(element_at(buf, pos, 0)->Ok_0.0),
{
    lemma_element_canonical(buf, pos, 0);
}

/// The decoder never reports an I/O error.
pub proof fn lemma_element_not_io(buf: Seq<u8>, pos: nat, depth: nat)
    ensures
        element_at(buf, pos, depth) matches Err(f) ==> !(f is Io),
    decreases buf.len(), 0int, 0int,
{
    if depth <= MAX_PARSE_DEPTH && pos <= buf.len() {
        if let (Ok(tag), p1) = tag_read(buf, pos as int) {
            if let (Ok(len), p2) = length_read(buf, p1) {
                if p2 + len <= buf.len() && tag is Sequence {
                    lemma_children_not_io(buf.subrange(p2, p2 + len), 0, depth + 1);
                }
            }
        }
    }
}

/// Decoding the elements of a sequence never reports an I/O error.
proof fn lemma_children_not_io(c: Seq<u8>, cursor: nat, depth: nat)
    ensures
        children_at(c, cursor, depth) matches Err(f) ==> !(f is Io),
    decreases c.len(), 1int, (if cursor < c.len() { c.len() - cursor } else { 0 }),
{
    if cursor < c.len() {
        lemma_element_not_io(c, cursor, depth);
        if element_at(c, cursor, depth) is Ok {
            lemma_children_not_io(c, header_end(c, cursor as int) as nat, depth);
        }
    }
}

/// The length field of a length up to `MAX_PARSE_SIZE` takes at most five bytes.
pub proof fn lemma_length_bytes_len(n: nat)
    requires
        n <= MAX_PARSE_SIZE,
    ensures
        1 <= length_bytes(n).len() <= 5,
{
    if n >= 128 {
        assert(crate::der::pow256(4) == 0x1_0000_0000) by {
            reveal_with_fuel(crate::der::pow256, 5);
        }
        crate::der::lemma_be_minimal_len(n, 4);
        crate::der::lemma_be_minimal_value(n);
    }
}

/// The encodings, writability and readability of a sequence one longer than `s`.
pub proof fn lemma_encode_all_push(s: Seq<Asn1Value>, v: Asn1Value, depth: nat)
    ensures
        encode_all(s.push(v)) == encode_all(s) + encoding(v),
        all_encodable(s.push(v)) == (all_encodable(s) && encodable(v)),
        all_decodable(s.push(v), depth) == (all_decodable(s, depth) && decodable(v, depth)),
{
    assert(s.push(v).drop_last() =~= s);
    assert(s.push(v).last() == v);
}

/// The encodings of five values, one after another.
pub proof fn lemma_encode_all_five(
    a: Asn1Value,
    b: Asn1Value,
    c: Asn1Value,
    d: Asn1Value,
    e: Asn1Value,
    depth: nat,
)
    ensures
        encode_all(seq![a, b, c, d, e]) == encoding(a) + encoding(b) + encoding(c) + encoding(d)
            + encoding(e),
        all_encodable(seq![a, b, c, d, e]) == (encodable(a) && encodable(b) && encodable(c)
            && encodable(d) && encodable(e)),
        all_decodable(seq![a, b, c, d, e], depth) == (decodable(a, depth) && decodable(b, depth)
            && decodable(c, depth) && decodable(d, depth) && decodable(e, depth)),
{
    let s0 = Seq::<Asn1Value>::empty();
    assert(encode_all(s0) == Seq::<u8>::empty());
    assert(all_encodable(s0));
    assert(all_decodable(s0, depth));
    lemma_encode_all_push(s0, a, depth);
    assert(s0.push(a) =~= seq![a]);
    lemma_encode_all_push(seq![a], b, depth);
    assert(seq![a].push(b) =~= seq![a, b]);
    lemma_encode_all_push(seq![a, b], c, depth);
    assert(seq![a, b].push(c) =~= seq![a, b, c]);
    lemma_encode_all_push(seq![a, b, c], d, depth);
    assert(seq![a, b, c].push(d) =~= seq![a, b, c, d]);
    lemma_encode_all_push(seq![a, b, c, d], e, depth);
    assert(seq![a, b, c, d].push(e) =~= seq![a, b, c, d, e]);
    assert(encoding(a) =~= Seq::<u8>::empty() + encoding(a));
}

/// A flat SEQUENCE with no PrintableString in it can be written.
pub proof fn lemma_encodable_without_printable(v: Asn1Value)
    requires
        v matches Asn1Value::Sequence(cs) && forall|i: int| 0 <= i < cs.len() ==> !(#[trigger] cs[i] is PrintableString) && !(cs[i] is Sequence),
    ensures
        encodable(v),
{
    if let Asn1Value::Sequence(cs) = v {
        lemma_all_encodable_flat(cs);
    }
}

proof fn lemma_all_encodable_flat(cs: Seq<Asn1Value>)
    requires
        forall|i: int| 0 <= i < cs.len() ==> !(#[trigger] cs[i] is PrintableString) && !(cs[i] is Sequence),
    ensures
        all_encodable(cs),
    decreases cs.len(),
{
    if cs.len() > 0 {
        let p = cs.drop_last();
        assert forall|i: int| 0 <= i < p.len() implies !(#[trigger] p[i] is PrintableString) && !(p[i] is Sequence) by {
            assert(p[i] == cs[i]);
        }
        lemma_all_encodable_flat(p);
        let last = cs.last();
        assert(!(cs[cs.len() - 1] is PrintableString) && !(cs[cs.len() - 1] is Sequence));
        assert(encodable(last));
    }
}

/// A sequence of values with one that cannot be written cannot be written.
proof fn lemma_all_encodable_index(cs: Seq<Asn1Value>, i: int)
    requires
        0 <= i < cs.len(),
        !encodable(cs[i]),
    ensures
        !all_encodable(cs),
    decreases cs.len(),
{
    if i < cs.len() - 1 {
        lemma_all_encodable_index(cs.drop_last(), i);
    }
}

} // verus!
