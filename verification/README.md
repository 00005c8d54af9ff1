# learn_der

DER encoding and decoding of a small ASN.1 subset (SEQUENCE, INTEGER,
OCTET STRING, UTF8String, PrintableString, NULL), and three versions of a
shopping-list record plus a product reference built on it. The library is
written in Verus: every function in `src/` carries a contract. Verus proves
all of them but a few trusted wrappers around outside code (UTF-8 decoding,
Base64 encoding, an I/O error's text), whose contracts are stated from that
code's documentation and source and marked `#[verifier::external_body]`.

## Layout

| Module | What it holds |
| --- | --- |
| `der` | tags, the DER length field, a bounded byte reader (`Parser`) |
| `asn1_int` | minimal two's-complement INTEGER content |
| `asn1` | `ASN1Element`, its DER encoder and decoder, the spec of both |
| `record` | pieces the records share (outer SEQUENCE, text and optional fields) |
| `product`, `shopping_item`, `shopping_item_r2`, `shopping_item_r3` | the records |
| `errors`, `text` | error types and their messages, number formatting |
| `helpers` | the Base64 block and item details as text to print |

`app/` holds the demo program and the printing and file I/O around the library.

## What is proved

- Every encoder and decoder returns exactly what its spec function says,
  errors included.
- Decoding an element's encoding gives it back (`asn1::law_der_roundtrip`).
  Every element the decoder accepts can be written again, and re-encodes to
  the bytes it was read from unless a NULL in it has a non-zero length, which
  the decoder accepts and skips (`asn1::law_der_canonical`).
- Length fields and tags read back as written and have one encoding each
  (`der::law_length_roundtrip`, `der::law_length_unique`,
  `der::law_tag_byte_roundtrip`).
- Whatever the encoder writes, within the size and depth limits, the decoder
  reads back, wherever it stands among other bytes
  (`asn1::law_written_reads_back`).
- Each record reads back from its DER form (`law_product_roundtrip`,
  `law_v2_roundtrip`, `law_v3_roundtrip`, `law_upgrade_roundtrip`). A
  first-format record reads back with its unit cut or padded with NUL
  characters to 16 bytes, so one whose unit is exactly 16 bytes long reads
  back unchanged (`law_item_roundtrip`). Record decoders refuse bytes after
  the outer SEQUENCE.
