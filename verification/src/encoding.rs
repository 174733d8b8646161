//! Transcoding of input bytes to UTF-8, through `encoding_rs` and
//! `encoding_rs_io`.

use encoding_rs_io::DecodeReaderBytesBuilder;
use std::io::Read;
use vstd::prelude::*;
use vstd::utf8::valid_utf8;

use crate::text::same_text;

verus! {

/// The source encodings the input may be read in.
#[derive(Debug, Clone, Copy, PartialEq, Eq)]
pub enum TextEncoding {
    /// UTF-8.
    Utf8,
    /// Windows code page 1252.
    Windows1252,
}

/// The encoding an encoding name selects: `WINDOWS_1252` selects Windows
/// 1252, any other name UTF-8.
pub open spec fn encoding_named(name: Seq<char>) -> TextEncoding {
    if name == "WINDOWS_1252"@ {
        TextEncoding::Windows1252
    } else {
        TextEncoding::Utf8
    }
}

/// The encoding that `encoding` names; see [`encoding_named`]. There is
/// always one.
pub fn get_encoding(encoding: &str) -> (r: Option<TextEncoding>)
    ensures
        r == Some(encoding_named(encoding@)),
{
    if same_text(encoding, "WINDOWS_1252") {
        Some(TextEncoding::Windows1252)
    } else {
        Some(TextEncoding::Utf8)
    }
}

/// The bytes start with the UTF-8 byte-order mark.
pub open spec fn starts_with_bom(raw: Seq<u8>) -> bool {
    raw.len() >= 3 && raw[0] == 0xEFu8 && raw[1] == 0xBBu8 && raw[2] == 0xBFu8
}

/// The UTF-8 bytes that decoding `raw` from the encoding `enc` gives.
pub uninterp spec fn transcoded(enc: TextEncoding, raw: Seq<u8>) -> Seq<u8>;

/// `encoding_rs_io::DecodeReaderBytes`, built with the explicit encoding
/// `enc` (`encoding_rs::UTF_8` or `encoding_rs::WINDOWS_1252`) and read to
/// the end over `raw`. Trusted: the bytes read are [`transcoded`] of the
/// encoding and the input bytes, and they are valid UTF-8, for with an
/// explicit encoding the crate decodes and replaces errors by the Unicode
/// replacement character. Decoding UTF-8 is the "UTF-8 decode" of the
/// Encoding Standard, as `encoding_rs` documents: valid UTF-8 input that does
/// not start with a byte-order mark comes out unchanged. A read error cannot come from an in-memory source
/// and is ignored, as the reading code ignores it.
#[verifier::external_body]
fn transcode(enc: TextEncoding, raw: &[u8]) -> (out: Vec<u8>)
    ensures
        out@ == transcoded(enc, raw@),
        valid_utf8(out@),
        enc == TextEncoding::Utf8 && valid_utf8(raw@) && !starts_with_bom(raw@) ==> out@ == raw@,
{
    let encoding = match enc {
        TextEncoding::Utf8 => encoding_rs::UTF_8,
        TextEncoding::Windows1252 => encoding_rs::WINDOWS_1252,
    };
    let mut out = Vec::new();
    let _ = DecodeReaderBytesBuilder::new().encoding(Some(encoding)).build(raw).read_to_end(&mut out);
    out
}

/// The bytes of a file's contents, decoded from the encoding named
/// `encoding` (see [`get_encoding`]) to UTF-8; the bytes are valid UTF-8,
/// and valid UTF-8 read as UTF-8 without a byte-order mark is left as it is.
pub fn decode_contents(encoding: &str, raw: &[u8]) -> (out: Vec<u8>)
    ensures
        out@ == transcoded(encoding_named(encoding@), raw@),
        valid_utf8(out@),
        encoding_named(encoding@) == TextEncoding::Utf8 && valid_utf8(raw@) && !starts_with_bom(raw@)
            ==> out@ == raw@,
{
    let enc = get_encoding(encoding).unwrap();
    transcode(enc, raw)
}

} // verus!
