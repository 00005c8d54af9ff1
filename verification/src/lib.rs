//! DER encoding and decoding of a small ASN.1 subset, and the shopping-list
//! records (three wire versions and a product reference) built on top of it.
//!
//! Layers: `der` (tags, lengths, a bounded byte reader), `asn1` (semantic
//! elements and their DER form), then the domain records.
pub mod errors;
pub mod text;
pub mod der;
pub mod asn1_int;
pub mod asn1;
pub mod record;
pub mod product;
pub mod shopping_item;
pub mod shopping_item_r2;
pub mod shopping_item_r3;
pub mod helpers;
