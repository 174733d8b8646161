use puf_builder::encoding::{decode_contents, get_encoding, TextEncoding};
use puf_builder::error::BuildError;
use puf_builder::functions::function_list;
use puf_builder::text::{decimal_text, parse_usize, replace_text, split_text, trim_end_text};

#[test]
fn functions_listed_in_order() {
    let text = "fn alpha() {}\nfn beta_two() {}\nfn gamma() {}";
    assert_eq!(function_list(text), Ok("alpha,beta_two,gamma".to_string()));
}

#[test]
fn single_function_has_no_comma() {
    assert_eq!(function_list("fn only() {}"), Ok("only".to_string()));
    assert_eq!(function_list("no functions"), Ok("".to_string()));
}

#[test]
fn encodings_by_name() {
    assert_eq!(get_encoding("WINDOWS_1252"), Some(TextEncoding::Windows1252));
    assert_eq!(get_encoding("utf8"), Some(TextEncoding::Utf8));
    assert_eq!(get_encoding("windows_1252"), Some(TextEncoding::Utf8));
}

#[test]
fn windows_1252_is_decoded() {
    let raw = [0x93u8, b'h', b'i', 0x94];
    assert_eq!(decode_contents("WINDOWS_1252", &raw), "\u{201c}hi\u{201d}".as_bytes().to_vec());
    assert_eq!(decode_contents("utf8", b"plain"), b"plain".to_vec());
}

#[test]
fn replacement_counts() {
    assert_eq!(replace_text("aaaa", "a", "b", Some(2)), "bbaa");
    assert_eq!(replace_text("aaaa", "aa", "b", None), "bb");
    assert_eq!(replace_text("abc", "", "-", None), "-a-b-c-");
    assert_eq!(replace_text("abc", "", "-", Some(2)), "-a-bc");
    assert_eq!(replace_text("", "", "-", None), "-");
    assert_eq!(replace_text("héllo wörld", "ö", "o", None), "héllo world");
}

#[test]
fn decimal_and_parse() {
    assert_eq!(decimal_text(0), "0");
    assert_eq!(decimal_text(1204), "1204");
    assert_eq!(parse_usize("1204"), Some(1204));
    assert_eq!(parse_usize("+9"), Some(9));
    assert_eq!(parse_usize("+"), None);
    assert_eq!(parse_usize(""), None);
    assert_eq!(parse_usize("-1"), None);
    assert_eq!(parse_usize("18446744073709551616"), None);
}

#[test]
fn trimming_and_splitting() {
    assert_eq!(trim_end_text("ab\r\r", '\r'), "ab");
    assert_eq!(split_text("é;ü;", ";"), vec!["é", "ü", ""]);
}

#[test]
fn error_values_compare() {
    assert_ne!(BuildError::NoBigRows, BuildError::RowCountMismatch);
}

#[test]
fn decoding_always_gives_valid_utf8() {
    let out = decode_contents("utf8", b"ok\xff");
    assert_eq!(String::from_utf8(out).unwrap(), "ok\u{FFFD}");
}

#[test]
fn valid_utf8_passes_through() {
    let text = "héllo, wörld";
    assert_eq!(decode_contents("utf8", text.as_bytes()), text.as_bytes().to_vec());
    assert_eq!(decode_contents("utf8", b"\xEF\xBB\xBFok"), b"ok".to_vec());
}
