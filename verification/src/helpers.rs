//! Display helpers: the Base64 block for ASN.1 viewers and the details of an
//! item, as text for the caller to print.
use vstd::prelude::*;
use base64::Engine;
use base64::engine::general_purpose::STANDARD;

use crate::shopping_item::{ShoppingItem, ItemView};
use crate::text::{decimal, append_decimal};

verus! {

/// The character of a six-bit value in the standard Base64 alphabet
/// (RFC 4648): `A`–`Z`, `a`–`z`, `0`–`9`, `+`, `/`.
pub open spec fn base64_digit(v: int) -> char {
    if v < 26 {
        (65 + v) as char
    } else if v < 52 {
        (97 + v - 26) as char
    } else if v < 62 {
        (48 + v - 52) as char
    } else if v == 62 {
        '+'
    } else {
        '/'
    }
}

/// Standard Base64 with `=` padding (RFC 4648): each group of three bytes
/// becomes four characters of six bits each; a last group of one or two bytes
/// becomes two or three characters and is padded with `=` to four.
pub open spec fn base64_standard(data: Seq<u8>) -> Seq<char>
    decreases data.len(),
{
    if data.len() == 0 {
        Seq::empty()
    } else if data.len() == 1 {
        let a = data[0] as int;
        seq![base64_digit(a / 4), base64_digit((a % 4) * 16), '=', '=']
    } else if data.len() == 2 {
        let a = data[0] as int;
        let b = data[1] as int;
        seq![base64_digit(a / 4), base64_digit((a % 4) * 16 + b / 16), base64_digit((b % 16) * 4), '=']
    } else {
        let a = data[0] as int;
        let b = data[1] as int;
        let c = data[2] as int;
        seq![
            base64_digit(a / 4),
            base64_digit((a % 4) * 16 + b / 16),
            base64_digit((b % 16) * 4 + c / 64),
            base64_digit(c % 64),
        ] + base64_standard(data.subrange(3, data.len() as int))
    }
}

/// `base64::engine::general_purpose::STANDARD.encode`: the standard Base64
/// text of `data`, with `=` padding. The crate panics when the length of that
/// text, four characters for each started group of three bytes, overflows
/// `usize`, which `requires` rules out.
#[verifier::external_body]
fn base64_encode(data: &[u8]) -> (text: String)
    requires
        4 * ((data@.len() + 2) / 3) <= usize::MAX,
    ensures
        text@ == base64_standard(data@),
{
    STANDARD.encode(data)
}

/// The heading printed above the Base64 text.
pub open spec fn base64_heading() -> Seq<char> {
    "\n--- Base64 (Copy this for ASN.1 viewers) ---\n"@
}

/// The block to print for ASN.1 viewers: a heading line, then the Base64
/// text of `data` on a line of its own.
pub fn base64_block(data: &[u8]) -> (block: String)
    requires
        4 * ((data@.len() + 2) / 3) <= usize::MAX,
    ensures
        block@ == base64_heading() + base64_standard(data@) + "\n"@,
{
    let b64 = base64_encode(data);
    base64_frame(b64.as_str())
}

/// The block to print for ASN.1 viewers around Base64 text already made: the
/// heading line, then `encoded` on a line of its own.
pub fn base64_frame(encoded: &str) -> (block: String)
    ensures
        block@ == base64_heading() + encoded@ + "\n"@,
{
    let mut block = String::from_str("\n--- Base64 (Copy this for ASN.1 viewers) ---\n");
    block.append(encoded);
    block.append("\n");
    block
}

/// The details of an item, one field per line, between a heading and a rule.
pub open spec fn item_details_text(v: ItemView) -> Seq<char> {
    "\n--- Parsed Shopping Item ---\n"@ + "Name:     "@ + v.name + "\n"@ + "Unit:     "@ + v.unit + "\n"@
        + "Quantity: "@ + decimal(v.quantity as nat) + "\n"@ + match v.description {
        Some(d) => "Desc:     "@ + d + "\n"@,
        None => "Desc:     (None)\n"@,
    } + "------------------------------\n"@
}

/// The details of a parsed item, as the lines to print.
pub fn item_details(item: &ShoppingItem) -> (text: String)
    ensures
        text@ == item_details_text(item@),
{
    let mut text = String::from_str("\n--- Parsed Shopping Item ---\n");
    text.append("Name:     ");
    text.append(item.name.as_str());
    text.append("\n");
    text.append("Unit:     ");
    text.append(item.unit.as_str());
    text.append("\n");
    text.append("Quantity: ");
    append_decimal(&mut text, item.quantity);
    text.append("\n");
    match &item.description {
        Some(desc) => {
            text.append("Desc:     ");
            text.append(desc.as_str());
            text.append("\n");
        },
        None => {
            text.append("Desc:     (None)\n");
        },
    }
    text.append("------------------------------\n");
    text
}

} // verus!
