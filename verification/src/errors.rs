use vstd::prelude::*;

use crate::text::{decimal, hex_prefixed, append_decimal, append_hex_prefixed};

verus! {

/// Errors raised while reading or writing DER.
#[allow(inconsistent_fields)]
#[derive(Debug)]
pub enum DerError {
    /// The reader ran out of bytes; `pos` is where it stood.
    UnexpectedEndOfData { pos: usize },
    InvalidLength { expected: usize, found: usize },
    /// A string payload was not valid UTF-8.
    InvalidUtf8(std::string::FromUtf8Error),
    /// An INTEGER payload does not fit the 128-bit value type.
    IntConversion,
    /// An I/O error, for callers that read DER from files.
    Io(std::io::Error),
    WrongTag { expected: String, found: String },
    UnknownTag { found: u8 },
    InvalidPrintableString,
    MaxDepthExceeded { max: usize, depth: usize },
    MaxSizeExceeded { max: usize, size: usize },
    UnexpectedTag { expected: String, found: String },
    /// A length or integer was not written in its shortest form.
    NonMinimalEncoding { field: &'static str },
}

/// The mathematical value of a [`DerError`]: its strings as character sequences.
#[allow(inconsistent_fields)]
pub enum DerFault {
    UnexpectedEndOfData { pos: nat },
    InvalidLength { expected: nat, found: nat },
    InvalidUtf8,
    IntConversion,
    Io,
    WrongTag { expected: Seq<char>, found: Seq<char> },
    UnknownTag { found: u8 },
    InvalidPrintableString,
    MaxDepthExceeded { max: nat, depth: nat },
    MaxSizeExceeded { max: nat, size: nat },
    UnexpectedTag { expected: Seq<char>, found: Seq<char> },
    NonMinimalEncoding { field: Seq<char> },
}

impl View for DerError {
    type V = DerFault;

    open spec fn view(&self) -> DerFault {
        match self {
            DerError::UnexpectedEndOfData { pos } => DerFault::UnexpectedEndOfData { pos: *pos as nat },
            DerError::InvalidLength { expected, found } => DerFault::InvalidLength {
                expected: *expected as nat,
                found: *found as nat,
            },
            DerError::InvalidUtf8(_) => DerFault::InvalidUtf8,
            DerError::IntConversion => DerFault::IntConversion,
            DerError::Io(_) => DerFault::Io,
            DerError::WrongTag { expected, found } => DerFault::WrongTag {
                expected: expected@,
                found: found@,
            },
            DerError::UnknownTag { found } => DerFault::UnknownTag { found: *found },
            DerError::InvalidPrintableString => DerFault::InvalidPrintableString,
            DerError::MaxDepthExceeded { max, depth } => DerFault::MaxDepthExceeded {
                max: *max as nat,
                depth: *depth as nat,
            },
            DerError::MaxSizeExceeded { max, size } => DerFault::MaxSizeExceeded {
                max: *max as nat,
                size: *size as nat,
            },
            DerError::UnexpectedTag { expected, found } => DerFault::UnexpectedTag {
                expected: expected@,
                found: found@,
            },
            DerError::NonMinimalEncoding { field } => DerFault::NonMinimalEncoding { field: field@ },
        }
    }
}

/// The message text of an error; for an I/O error, only its first words (the
/// rest is the operating system's text).
pub open spec fn fault_message(f: DerFault) -> Seq<char> {
    match f {
        DerFault::UnexpectedEndOfData { pos } => "Unexpected end of data at position "@ + decimal(pos),
        DerFault::InvalidLength { expected, found } => "Invalid Length: expected "@ + decimal(expected)
            + ", found "@ + decimal(found),
        DerFault::InvalidUtf8 => "Data is not valid UTF-8"@,
        DerFault::IntConversion => "Integer conversion error"@,
        DerFault::Io => "IO Error: "@,
        DerFault::WrongTag { expected, found } => "Wrong Tag: expected "@ + expected + ", found "@
            + found,
        DerFault::UnknownTag { found } => "Unknown Tag: found "@ + hex_prefixed(found),
        DerFault::InvalidPrintableString => "Invalid PrintableString: contains non-allowed characters"@,
        DerFault::MaxDepthExceeded { max, depth } => "Parse depth exceeded maximum allowed depth of "@
            + decimal(max) + " (found "@ + decimal(depth) + ")"@,
        DerFault::MaxSizeExceeded { max, size } => "Parse size exceeded maximum allowed size of "@
            + decimal(max) + " bytes (found "@ + decimal(size) + " bytes)"@,
        DerFault::UnexpectedTag { expected, found } => "Unexpected tag in optional field: expected "@
            + expected + ", found "@ + found,
        DerFault::NonMinimalEncoding { field } => "Non-minimal encoding of "@ + field,
    }
}

impl DerError {
    /// The message text of the error. That of an I/O error is `IO Error: `
    /// followed by the error's own text.
    pub fn message(&self) -> (m: String)
        ensures
            !(self@ is Io) ==> m@ == fault_message(self@),
            self@ is Io ==> m@.take(fault_message(self@).len() as int) == fault_message(self@),
    {
        match self {
            DerError::UnexpectedEndOfData { pos } => {
                let mut m = String::from_str("Unexpected end of data at position ");
                append_decimal(&mut m, *pos as u64);
                m
            },
            DerError::InvalidLength { expected, found } => {
                let mut m = String::from_str("Invalid Length: expected ");
                append_decimal(&mut m, *expected as u64);
                m.append(", found ");
                append_decimal(&mut m, *found as u64);
                m
            },
            DerError::InvalidUtf8(_) => String::from_str("Data is not valid UTF-8"),
            DerError::IntConversion => String::from_str("Integer conversion error"),
            DerError::Io(e) => {
                let mut m = String::from_str("IO Error: ");
                let text = io_error_text(e);
                m.append(text.as_str());
                proof {
                    reveal_strlit("IO Error: ");
                }
                assert(m@.take(10) =~= "IO Error: "@);
                m
            },
            DerError::WrongTag { expected, found } => {
                let mut m = String::from_str("Wrong Tag: expected ");
                m.append(expected.as_str());
                m.append(", found ");
                m.append(found.as_str());
                m
            },
            DerError::UnknownTag { found } => {
                let mut m = String::from_str("Unknown Tag: found ");
                append_hex_prefixed(&mut m, *found);
                m
            },
            DerError::InvalidPrintableString => String::from_str(
                "Invalid PrintableString: contains non-allowed characters",
            ),
            DerError::MaxDepthExceeded { max, depth } => {
                let mut m = String::from_str("Parse depth exceeded maximum allowed depth of ");
                append_decimal(&mut m, *max as u64);
                m.append(" (found ");
                append_decimal(&mut m, *depth as u64);
                m.append(")");
                m
            },
            DerError::MaxSizeExceeded { max, size } => {
                let mut m = String::from_str("Parse size exceeded maximum allowed size of ");
                append_decimal(&mut m, *max as u64);
                m.append(" bytes (found ");
                append_decimal(&mut m, *size as u64);
                m.append(" bytes)");
                m
            },
            DerError::UnexpectedTag { expected, found } => {
                let mut m = String::from_str("Unexpected tag in optional field: expected ");
                m.append(expected.as_str());
                m.append(", found ");
                m.append(found.as_str());
                m
            },
            DerError::NonMinimalEncoding { field } => {
                let mut m = String::from_str("Non-minimal encoding of ");
                m.append(field);
                m
            },
        }
    }
}

/// The `Display` text of `std::io::Error`. It comes from the operating
/// system, so nothing is stated of it.
#[verifier::external_body]
fn io_error_text(e: &std::io::Error) -> (text: String) {
    format!("{}", e)
}

/// The outside error type of file I/O; its content is not read here.
#[verifier::external_type_specification]
#[verifier::external_body]
pub struct ExIoError(std::io::Error);

/// The outside error type of `String::from_utf8`; its content is not read here.
#[verifier::external_type_specification]
#[verifier::external_body]
pub struct ExFromUtf8Error(std::string::FromUtf8Error);

/// Errors raised by the shopping-list records.
#[derive(Debug)]
pub enum ShoppingItemError {
    DerError { der_error: String },
    InputError { input_error: String },
    InvalidPrintableString { reason: String },
}

/// The mathematical value of a [`ShoppingItemError`]: its kind and message.
pub enum ItemFault {
    DerError(Seq<char>),
    InputError(Seq<char>),
    InvalidPrintableString(Seq<char>),
}

impl View for ShoppingItemError {
    type V = ItemFault;

    open spec fn view(&self) -> ItemFault {
        match self {
            ShoppingItemError::DerError { der_error } => ItemFault::DerError(der_error@),
            ShoppingItemError::InputError { input_error } => ItemFault::InputError(input_error@),
            ShoppingItemError::InvalidPrintableString { reason } => ItemFault::InvalidPrintableString(
                reason@,
            ),
        }
    }
}

} // verus!
