use vstd::prelude::*;

use crate::errors::{DerError, DerFault};
use crate::text::{hex_char, hex_digit_str};

verus! {

/// The DER tags this crate reads and writes.
#[derive(Debug, Clone, Copy, PartialEq, Eq, Structural)]
pub enum DERTag {
    Sequence,
    Integer,
    OctetString,
    UTF8String,
    PrintableString,
    Null,
    ErrUnknown(u8),
}

/// The tag that a known tag byte stands for.
pub open spec fn tag_of_byte(b: u8) -> Option<DERTag> {
    if b == 0x30 {
        Some(DERTag::Sequence)
    } else if b == 0x02 {
        Some(DERTag::Integer)
    } else if b == 0x04 {
        Some(DERTag::OctetString)
    } else if b == 0x0c {
        Some(DERTag::UTF8String)
    } else if b == 0x13 {
        Some(DERTag::PrintableString)
    } else if b == 0x05 {
        Some(DERTag::Null)
    } else {
        None
    }
}


/// A known tag byte names the tag that is written as that byte, and each known
/// tag is read back from the byte it is written as.
pub proof fn law_tag_byte_roundtrip(t: DERTag, b: u8)
    ensures
        !(t is ErrUnknown) ==> tag_of_byte(t.spec_byte()) == Some(t),
        tag_of_byte(b) matches Some(u) ==> u.spec_byte() == b && !(u is ErrUnknown),
{
}

/// The display name of a tag: its kind and its byte in hexadecimal.
pub open spec fn tag_name(t: DERTag) -> Seq<char> {
    match t {
        DERTag::Sequence => "Sequence(0x30)"@,
        DERTag::Integer => "Integer(0x2)"@,
        DERTag::OctetString => "OctetString(0x4)"@,
        DERTag::UTF8String => "UTF8String(0xc)"@,
        DERTag::PrintableString => "PrintableString(0x13)"@,
        DERTag::Null => "Null(0x5)"@,
        DERTag::ErrUnknown(b) => "Unknown(0x"@ + seq![hex_char(b / 16), hex_char(b % 16)] + ")"@,
    }
}

impl DERTag {
    /// The byte that this tag is written as.
    pub open spec fn spec_byte(self) -> u8 {
        match self {
            DERTag::Sequence => 0x30,
            DERTag::Integer => 0x02,
            DERTag::OctetString => 0x04,
            DERTag::UTF8String => 0x0c,
            DERTag::PrintableString => 0x13,
            DERTag::Null => 0x05,
            DERTag::ErrUnknown(b) => b,
        }
    }

    /// Converts a raw byte tag into a tag.
    pub fn from_byte(this_byte: u8) -> (res: Result<Self, DerError>)
        ensures
            match tag_of_byte(this_byte) {
                Some(t) => res == Ok::<DERTag, DerError>(t),
                None => res matches Err(e) && e@ == (DerFault::UnknownTag { found: this_byte }),
            },
    {
        match this_byte {
            0x30 => Ok(DERTag::Sequence),
            0x02 => Ok(DERTag::Integer),
            0x04 => Ok(DERTag::OctetString),
            0x0c => Ok(DERTag::UTF8String),
            0x13 => Ok(DERTag::PrintableString),
            0x05 => Ok(DERTag::Null),
            _ => Err(DerError::UnknownTag { found: this_byte }),
        }
    }

    /// Returns the raw byte value for the tag.
    pub fn to_byte(&self) -> (b: u8)
        ensures
            b == self.spec_byte(),
    {
        match self {
            DERTag::Sequence => 0x30,
            DERTag::Integer => 0x02,
            DERTag::OctetString => 0x04,
            DERTag::UTF8String => 0x0c,
            DERTag::PrintableString => 0x13,
            DERTag::Null => 0x05,
            DERTag::ErrUnknown(unknown_byte) => *unknown_byte,
        }
    }

    /// The display name of the tag, such as `Sequence(0x30)`.
    pub fn to_name(&self) -> (name: String)
        ensures
            name@ == tag_name(*self),
    {
        match self {
            DERTag::Sequence => String::from_str("Sequence(0x30)"),
            DERTag::Integer => String::from_str("Integer(0x2)"),
            DERTag::OctetString => String::from_str("OctetString(0x4)"),
            DERTag::UTF8String => String::from_str("UTF8String(0xc)"),
            DERTag::PrintableString => String::from_str("PrintableString(0x13)"),
            DERTag::Null => String::from_str("Null(0x5)"),
            DERTag::ErrUnknown(unknown_byte) => {
                let mut name = String::from_str("Unknown(0x");
                name.append(hex_digit_str(*unknown_byte / 16));
                name.append(hex_digit_str(*unknown_byte % 16));
                name.append(")");
                name
            },
        }
    }
}


/// Maximum allowed DER element payload size (64 MiB), a guard against memory
/// exhaustion from crafted input.
pub const MAX_PARSE_SIZE: usize = 67108864;

/// Big-endian unsigned value of a byte string.
pub open spec fn be_value(s: Seq<u8>) -> nat
    decreases s.len(),
{
    if s.len() == 0 {
        0
    } else {
        be_value(s.drop_last()) * 256 + s.last() as nat
    }
}

/// `256` to the power `n`.
pub open spec fn pow256(n: nat) -> nat
    decreases n,
{
    if n == 0 {
        1
    } else {
        256 * pow256((n - 1) as nat)
    }
}

proof fn lemma_pow256_bound(n: nat)
    requires
        n < 4,
    ensures
        pow256(n) * 256 == pow256(n + 1),
        pow256(n + 1) <= 0x1_0000_0000,
{
    reveal_with_fuel(pow256, 5);
}

/// The outcome of reading a DER length field at `pos` in `buf`: the length or the
/// error, and the position at which the reader is left.
pub open spec fn length_read(buf: Seq<u8>, pos: int) -> (Result<nat, DerFault>, int) {
    if pos >= buf.len() {
        (Err(DerFault::UnexpectedEndOfData { pos: pos as nat }), pos)
    } else {
        let first = buf[pos];
        if first < 128 {
            (Ok(first as nat), pos + 1)
        } else {
            let n = first - 128;
            if n == 0 || n > 4 {
                (Err(DerFault::NonMinimalEncoding { field: "length"@ }), pos + 1)
            } else if pos + 1 + n > buf.len() {
                (Err(DerFault::UnexpectedEndOfData { pos: buf.len() }), buf.len() as int)
            } else {
                let b = buf.subrange(pos + 1, pos + 1 + n);
                let v = be_value(b);
                if v < 128 || b[0] == 0 {
                    (Err(DerFault::NonMinimalEncoding { field: "length"@ }), pos + 1 + n)
                } else if v > MAX_PARSE_SIZE {
                    (
                        Err(DerFault::MaxSizeExceeded { max: MAX_PARSE_SIZE as nat, size: v }),
                        pos + 1 + n,
                    )
                } else {
                    (Ok(v), pos + 1 + n)
                }
            }
        }
    }
}

/// The outcome of reading a tag byte at `pos` in `buf`, and the position after it.
pub open spec fn tag_read(buf: Seq<u8>, pos: int) -> (Result<DERTag, DerFault>, int) {
    if pos >= buf.len() {
        (Err(DerFault::UnexpectedEndOfData { pos: pos as nat }), pos)
    } else {
        match tag_of_byte(buf[pos]) {
            Some(t) => (Ok(t), pos + 1),
            None => (Err(DerFault::UnknownTag { found: buf[pos] }), pos + 1),
        }
    }
}

/// The view of a reader result: the value, or the error's view.
pub open spec fn fault_of<T>(r: Result<T, DerError>) -> Result<T, DerFault> {
    match r {
        Ok(v) => Ok(v),
        Err(e) => Err(e@),
    }
}

/// The view of a size result: the size as a natural number, or the error's view.
pub open spec fn size_fault(r: Result<usize, DerError>) -> Result<nat, DerFault> {
    match r {
        Ok(v) => Ok(v as nat),
        Err(e) => Err(e@),
    }
}

/// A reader over a byte slice. The slice's length is a hard bound: the reader
/// never reads past it, which keeps nested elements inside their parents.
#[derive(Debug)]
pub struct Parser<'a> {
    buffer: &'a [u8],
    pos: usize,
    /// Running total of bytes taken by `read_value` so far.
    allocated: usize,
}

impl<'a> Parser<'a> {
    #[verifier::type_invariant]
    spec fn inv(self) -> bool {
        self.pos <= self.buffer@.len()
    }

    /// The bytes being read.
    pub closed spec fn data(&self) -> Seq<u8> {
        self.buffer@
    }

    /// The position of the next byte to read.
    pub closed spec fn position(&self) -> nat {
        self.pos as nat
    }

    /// The running total of bytes taken by `read_value`.
    pub closed spec fn total(&self) -> nat {
        self.allocated as nat
    }

    /// Creates a reader at the start of `buffer`.
    pub fn new(buffer: &'a [u8]) -> (p: Self)
        ensures
            p.data() == buffer@,
            p.position() == 0,
            p.total() == 0,
    {
        Parser { buffer, pos: 0, allocated: 0 }
    }

    /// The byte at the current position, if any, without advancing.
    pub fn peek(&self) -> (res: Option<u8>)
        ensures
            self.position() < self.data().len() ==> res == Some(self.data()[self.position() as int]),
            self.position() >= self.data().len() ==> res is None,
    {
        if self.pos < self.buffer.len() {
            Some(self.buffer[self.pos])
        } else {
            None
        }
    }

    /// Consumes the current byte.
    pub fn next(&mut self) -> (res: Result<u8, DerError>)
        ensures
            final(self).data() == old(self).data(),
            final(self).total() == old(self).total(),
            final(self).position() <= final(self).data().len(),
            old(self).position() < old(self).data().len() ==> {
                &&& res == Ok::<u8, DerError>(old(self).data()[old(self).position() as int])
                &&& final(self).position() == old(self).position() + 1
            },
            old(self).position() >= old(self).data().len() ==> {
                &&& res matches Err(e) && e@ == (DerFault::UnexpectedEndOfData {
                    pos: old(self).position(),
                })
                &&& final(self).position() == old(self).position()
            },
    {
        proof {
            use_type_invariant(&*self);
        }
        if self.pos < self.buffer.len() {
            let byte = self.buffer[self.pos];
            self.pos += 1;
            Ok(byte)
        } else {
            Err(DerError::UnexpectedEndOfData { pos: self.pos })
        }
    }

    /// Checks if there are bytes left to parse.
    pub fn has_more(&self) -> (b: bool)
        ensures
            b == (self.position() < self.data().len()),
    {
        self.pos < self.buffer.len()
    }

    /// Reads a tag.
    pub fn read_tag(&mut self) -> (res: Result<DERTag, DerError>)
        ensures
            final(self).data() == old(self).data(),
            final(self).total() == old(self).total(),
            final(self).position() <= final(self).data().len(),
            (fault_of(res), final(self).position() as int) == tag_read(
                old(self).data(),
                old(self).position() as int,
            ),
    {
        let byte = self.next();
        match byte {
            Ok(byte) => match DERTag::from_byte(byte) {
                Ok(tag) => Ok(tag),
                Err(e) => Err(e),
            },
            Err(e) => Err(e),
        }
    }

    /// Reads a tag and checks that it is `expected`.
    pub fn expect_tag(&mut self, expected: DERTag) -> (res: Result<DERTag, DerError>)
        ensures
            final(self).data() == old(self).data(),
            final(self).total() == old(self).total(),
            final(self).position() <= final(self).data().len(),
            final(self).position() == tag_read(old(self).data(), old(self).position() as int).1,
            fault_of(res) == match tag_read(old(self).data(), old(self).position() as int).0 {
                Ok(found) => if found == expected {
                    Ok(expected)
                } else {
                    Err(DerFault::WrongTag { expected: tag_name(expected), found: tag_name(found) })
                },
                Err(e) => Err(e),
            },
    {
        let result = self.read_tag();
        match result {
            Ok(found) => {
                if found == expected {
                    Ok(expected)
                } else {
                    Err(DerError::WrongTag { expected: expected.to_name(), found: found.to_name() })
                }
            },
            Err(e) => return Err(e),
        }
    }

    /// Reads a length field by the DER rules: the short form below 128, else
    /// the long form with one to four length bytes in the shortest possible
    /// form. A length above `MAX_PARSE_SIZE` is refused.
    pub fn read_length(&mut self) -> (res: Result<usize, DerError>)
        ensures
            final(self).data() == old(self).data(),
            final(self).total() == old(self).total(),
            final(self).position() <= final(self).data().len(),
            (size_fault(res), final(self).position() as int) == length_read(
                old(self).data(),
                old(self).position() as int,
            ),
    {
        proof {
            use_type_invariant(&*self);
        }
        let ghost buf = self.data();
        let ghost start = self.pos as int;
        let length: usize = match self.next() {
            Err(e) => return Err(e),
            Ok(first_byte) => {
                if first_byte < 128 {
                    first_byte as usize
                } else {
                    let num_len_bytes: u8 = first_byte & 0x7F;
                    assert(num_len_bytes == first_byte - 128) by (bit_vector)
                        requires
                            num_len_bytes == first_byte & 0x7F,
                            first_byte >= 128,
                    ;
                    if num_len_bytes == 0 || num_len_bytes > 4 {
                        return Err(DerError::NonMinimalEncoding { field: "length" });
                    }
                    let mut calc_length: usize = 0;
                    let mut leading: u8 = 0;
                    let mut i: u8 = 0;
                    while i < num_len_bytes
                        invariant
                            self.data() == buf,
                            buf == old(self).data(),
                            start == old(self).position(),
                            self.total() == old(self).total(),
                            self.position() <= self.data().len(),
                            0 <= start < buf.len(),
                            first_byte == buf[start],
                            num_len_bytes == first_byte - 128,
                            1 <= num_len_bytes <= 4,
                            i <= num_len_bytes,
                            self.position() == start + 1 + i,
                            start + 1 + i <= buf.len(),
                            calc_length == be_value(buf.subrange(start + 1, start + 1 + i)),
                            calc_length < pow256(i as nat),
                            i > 0 ==> leading == buf[start + 1],
                        decreases num_len_bytes - i,
                    {
                        match self.next() {
                            Err(e) => {
                                return Err(e);
                            },
                            Ok(this_byte) => {
                                proof {
                                    let b = buf.subrange(start + 1, start + 1 + i + 1);
                                    assert(b.drop_last() == buf.subrange(start + 1, start + 1 + i));
                                    lemma_pow256_bound(i as nat);
                                }
                                if i == 0 {
                                    leading = this_byte;
                                }
                                calc_length = calc_length * 256 + this_byte as usize;
                                i = i + 1;
                            },
                        }
                    }
                    if calc_length < 128 || leading == 0 {
                        return Err(DerError::NonMinimalEncoding { field: "length" });
                    }
                    calc_length
                }
            },
        };
        if length > MAX_PARSE_SIZE {
            return Err(DerError::MaxSizeExceeded { max: MAX_PARSE_SIZE, size: length });
        }
        Ok(length)
    }

    /// Reads exactly `len` bytes as a value; `None` when `len` is zero. The
    /// running total of bytes taken is held below `MAX_PARSE_SIZE`.
    pub fn read_value(&mut self, len: usize) -> (res: Result<Option<Vec<u8>>, DerError>)
        ensures
            final(self).data() == old(self).data(),
            final(self).position() <= final(self).data().len(),
            ({
                let buf = old(self).data();
                let pos = old(self).position();
                let total: nat = old(self).total() + len as nat;
                if len == 0 {
                    &&& res matches Ok(None)
                    &&& final(self).position() == pos
                    &&& final(self).total() == old(self).total()
                } else if total > usize::MAX {
                    &&& res matches Err(e) && e@ == (DerFault::MaxSizeExceeded {
                        max: MAX_PARSE_SIZE as nat,
                        size: usize::MAX as nat,
                    })
                    &&& final(self).position() == pos
                    &&& final(self).total() == old(self).total()
                } else if total > MAX_PARSE_SIZE {
                    &&& res matches Err(e) && e@ == (DerFault::MaxSizeExceeded {
                        max: MAX_PARSE_SIZE as nat,
                        size: total,
                    })
                    &&& final(self).position() == pos
                    &&& final(self).total() == total
                } else if pos + len > buf.len() {
                    &&& res matches Err(e) && e@ == (DerFault::UnexpectedEndOfData { pos: buf.len() })
                    &&& final(self).position() == buf.len()
                    &&& final(self).total() == total
                } else {
                    &&& res matches Ok(Some(v)) && v@ == buf.subrange(pos as int, pos + len)
                    &&& final(self).position() == pos + len
                    &&& final(self).total() == total
                }
            }),
    {
        proof {
            use_type_invariant(&*self);
        }
        if len > 0 {
            self.allocated = match self.allocated.checked_add(len) {
                Some(total) => total,
                None => {
                    return Err(DerError::MaxSizeExceeded { max: MAX_PARSE_SIZE, size: usize::MAX });
                },
            };
            if self.allocated > MAX_PARSE_SIZE {
                return Err(DerError::MaxSizeExceeded { max: MAX_PARSE_SIZE, size: self.allocated });
            }
            let ghost buf = self.data();
            let ghost start = self.pos as int;
            let mut value: Vec<u8> = Vec::with_capacity(len);
            let mut k: usize = 0;
            while k < len
                invariant
                    self.data() == buf,
                    buf == old(self).data(),
                    start == old(self).position(),
                    0 < len,
                    old(self).total() + len <= MAX_PARSE_SIZE,
                    self.total() == old(self).total() + len,
                    self.position() <= self.data().len(),
                    start <= buf.len(),
                    k <= len,
                    self.position() == start + k,
                    value@ == buf.subrange(start, start + k),
                decreases len - k,
            {
                let byte = match self.next() {
                    Err(e) => return Err(e),
                    Ok(byte) => byte,
                };
                value.push(byte);
                k = k + 1;
            }
            Ok(Some(value))
        } else {
            Ok(None)
        }
    }

    /// The current position.
    pub fn read_pos(&self) -> (p: usize)
        ensures
            p == self.position(),
            p <= self.data().len(),
    {
        proof {
            use_type_invariant(self);
        }
        self.pos
    }

    /// The total number of bytes taken by `read_value` so far.
    pub fn allocated(&self) -> (a: usize)
        ensures
            a == self.total(),
    {
        self.allocated
    }
}

/// The shortest big-endian byte string of `v` (one byte for zero).
pub open spec fn be_minimal(v: nat) -> Seq<u8>
    decreases v,
{
    if v < 256 {
        seq![v as u8]
    } else {
        be_minimal(v / 256).push((v % 256) as u8)
    }
}

/// The DER length field for `len`: the short form below 128, else a byte
/// `0x80 + n` followed by the `n` bytes of `len` in shortest big-endian form.
pub open spec fn length_bytes(len: nat) -> Seq<u8> {
    if len < 128 {
        seq![len as u8]
    } else {
        seq![(0x80 + be_minimal(len).len()) as u8] + be_minimal(len)
    }
}

proof fn lemma_div_256(a: nat, x: nat)
    requires
        x < 256,
    ensures
        (a * 256 + x) / 256 == a,
        (a * 256 + x) % 256 == x,
{
    assert((a * 256 + x) / 256 == a) by (nonlinear_arith)
        requires
            x < 256,
    ;
    assert((a * 256 + x) % 256 == x) by (nonlinear_arith)
        requires
            x < 256,
    ;
}

proof fn lemma_split_256(v: nat)
    ensures
        v == (v / 256) * 256 + v % 256,
        v % 256 < 256,
        v >= 256 ==> v / 256 >= 1,
        v >= 256 ==> v / 256 < v,
{
    assert(v == (v / 256) * 256 + v % 256) by (nonlinear_arith);
}

/// The shortest big-endian form reads back as the value it was made from.
pub proof fn lemma_be_minimal_value(v: nat)
    ensures
        be_value(be_minimal(v)) == v,
        be_minimal(v).len() >= 1,
        v > 0 ==> be_minimal(v)[0] != 0,
        v < 256 ==> be_minimal(v).len() == 1,
    decreases v,
{
    if v >= 256 {
        lemma_split_256(v);
        lemma_be_minimal_value(v / 256);
        let p = be_minimal(v / 256);
        assert(p.push((v % 256) as u8).drop_last() == p);
    } else {
        assert(seq![v as u8].drop_last() =~= Seq::<u8>::empty());
        assert(be_value(Seq::<u8>::empty()) == 0);
        assert(be_value(seq![v as u8]) == v);
    }
}

/// The shortest big-endian form of a value below `256^k` has at most `k` bytes.
pub proof fn lemma_be_minimal_len(v: nat, k: nat)
    requires
        k >= 1,
        v < pow256(k),
    ensures
        be_minimal(v).len() <= k,
    decreases v,
{
    if v >= 256 {
        lemma_split_256(v);
        if k == 1 {
            assert(pow256(1) == 256) by {
                reveal_with_fuel(pow256, 2);
            }
        } else {
            assert(v / 256 < pow256((k - 1) as nat)) by {
                assert(pow256(k) == 256 * pow256((k - 1) as nat));
                assert(v < 256 * pow256((k - 1) as nat));
                assert(v / 256 < pow256((k - 1) as nat)) by (nonlinear_arith)
                    requires
                        v < 256 * pow256((k - 1) as nat),
                ;
            }
            lemma_be_minimal_len(v / 256, (k - 1) as nat);
        }
    }
}

/// A byte string with no leading zero byte reads back to a value whose
/// shortest form is that same string.
pub proof fn lemma_be_value_minimal(b: Seq<u8>)
    requires
        b.len() >= 1,
        b.len() > 1 ==> b[0] != 0,
    ensures
        be_minimal(be_value(b)) == b,
        b.len() > 1 ==> be_value(b) >= 256,
    decreases b.len(),
{
    let p = b.drop_last();
    let x = b.last();
    if b.len() == 1 {
        assert(p =~= Seq::<u8>::empty());
        assert(be_value(Seq::<u8>::empty()) == 0);
        assert(be_value(b) == x as nat);
        assert(b =~= seq![x]);
    } else {
        lemma_be_value_minimal(p);
        lemma_be_value_positive(p);
        lemma_div_256(be_value(p), x as nat);
        assert(b =~= p.push(x));
    }
}

proof fn lemma_be_value_positive(b: Seq<u8>)
    requires
        b.len() >= 1,
        b[0] != 0,
    ensures
        be_value(b) >= 1,
    decreases b.len(),
{
    if b.len() > 1 {
        lemma_be_value_positive(b.drop_last());
    }
}

/// Reading a length field written by [`encode_length`] gives back the length and
/// leaves the reader just past the field, for every length up to `MAX_PARSE_SIZE`
/// and whatever bytes surround the field.
pub proof fn law_length_roundtrip(buf: Seq<u8>, pos: int, len: nat)
    requires
        0 <= pos,
        len <= MAX_PARSE_SIZE,
        pos + length_bytes(len).len() <= buf.len(),
        buf.subrange(pos, pos + length_bytes(len).len()) == length_bytes(len),
    ensures
        length_read(buf, pos) == (Ok::<nat, DerFault>(len), pos + length_bytes(len).len()),
{
    let lb = length_bytes(len);
    assert(buf[pos] == lb[0]);
    if len >= 128 {
        let b = be_minimal(len);
        lemma_be_minimal_value(len);
        assert(pow256(4) == 0x1_0000_0000) by {
            reveal_with_fuel(pow256, 5);
        }
        lemma_be_minimal_len(len, 4);
        let n = b.len();
        assert(buf.subrange(pos + 1, pos + 1 + n) =~= b) by {
            assert forall|i: int| 0 <= i < n implies buf.subrange(pos + 1, pos + 1 + n)[i] == b[i] by {
                assert(buf.subrange(pos, pos + lb.len())[i + 1] == lb[i + 1]);
            }
        }
    }
}

/// A length field that reads successfully is exactly the field that
/// [`encode_length`] writes for the length read: each length has one encoding.
pub proof fn law_length_unique(buf: Seq<u8>, pos: int)
    requires
        0 <= pos,
        length_read(buf, pos).0 is Ok,
    ensures
        buf.subrange(pos, length_read(buf, pos).1) == length_bytes(length_read(buf, pos).0->Ok_0),
{
    let first = buf[pos];
    if first < 128 {
        assert(buf.subrange(pos, pos + 1) =~= seq![first]);
    } else {
        let n = first - 128;
        let b = buf.subrange(pos + 1, pos + 1 + n);
        lemma_be_value_minimal(b);
        assert(buf.subrange(pos, pos + 1 + n) =~= seq![first] + b);
    }
}

/// Helper for encoding: the DER length field for `len`.
pub fn encode_length(len: usize) -> (out: Vec<u8>)
    ensures
        out@ == length_bytes(len as nat),
{
    if len < 128 {
        vec![len as u8]
    } else {
        let mut rev: Vec<u8> = Vec::new();
        let mut v: usize = len;
        loop
            invariant_except_break
                len >= 128,
                be_minimal(len as nat) == be_minimal(v as nat) + rev@.reverse(),
            ensures
                len >= 128,
                be_minimal(len as nat) == rev@.reverse(),
            decreases v,
        {
            proof {
                lemma_split_256(v as nat);
            }
            if v < 256 {
                let ghost before = rev@;
                rev.push(v as u8);
                proof {
                    assert(be_minimal(v as nat) == seq![v as u8]);
                    assert(rev@.reverse() =~= seq![v as u8] + before.reverse());
                }
                break;
            }
            let ghost prev = rev@;
            rev.push((v % 256) as u8);
            proof {
                assert(rev@.reverse() =~= seq![(v % 256) as u8] + prev.reverse());
                assert(be_minimal(v as nat) == be_minimal((v / 256) as nat).push((v % 256) as u8));
            }
            v = v / 256;
        }
        let ghost body = rev@.reverse();
        proof {
            lemma_be_minimal_value(len as nat);
            assert(body == be_minimal(len as nat));
            assert(pow256(8) == 0x1_0000_0000_0000_0000) by {
                reveal_with_fuel(pow256, 9);
            }
            lemma_be_minimal_len(len as nat, 8);
        }
        let n = rev.len();
        let mut result: Vec<u8> = Vec::new();
        result.push(0x80u8 + n as u8);
        let mut j: usize = 0;
        while j < n
            invariant
                n == rev.len(),
                n <= 8,
                body == rev@.reverse(),
                j <= n,
                result@ == seq![(0x80 + n) as u8] + body.subrange(0, j as int),
            decreases n - j,
        {
            result.push(rev[n - 1 - j]);
            j = j + 1;
            proof {
                assert(body.subrange(0, j as int) =~= body.subrange(0, j - 1).push(body[j - 1]));
            }
        }
        proof {
            assert(body.subrange(0, n as int) =~= body);
        }
        result
    }
}

} // verus!
