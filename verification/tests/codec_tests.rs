use shn::codec::{trim_trailing_nuls, AsciiCodec, TextCodec, Windows949Codec};
use shn::ShnError;

#[test]
fn ascii_decode_lossy_skips_non_ascii() {
    let s = AsciiCodec.decode_lossy(&[0x41, 0xff, 0x42, 0x80]);
    assert_eq!(s, "AB");
}

#[test]
fn ascii_decode_strict_accepts_ascii_only() {
    assert_eq!(AsciiCodec.decode_strict(&[0x41, 0x42, 0x43]), Ok(String::from("ABC")));
    assert_eq!(AsciiCodec.decode_strict(&[0x41, 0x80]), Err(ShnError::InvalidEncoding));
}

#[test]
fn ascii_encode_round_trips() {
    let bytes = AsciiCodec.encode("Hello").unwrap();
    assert_eq!(bytes, vec![0x48, 0x65, 0x6c, 0x6c, 0x6f]);
    assert_eq!(AsciiCodec.encode("caf\u{e9}"), Err(ShnError::InvalidEncoding));
}

#[test]
fn trim_removes_only_trailing_nuls() {
    assert_eq!(trim_trailing_nuls("ab\0\0"), "ab");
    assert_eq!(trim_trailing_nuls("a\0b\0"), "a\0b");
    assert_eq!(trim_trailing_nuls("\0\0"), "");
    assert_eq!(trim_trailing_nuls(""), "");
    assert_eq!(trim_trailing_nuls("abc"), "abc");
}

#[test]
fn win949_decodes_hangul() {
    // 0xB0 0xA1 is the Hangul syllable that Unicode puts at U+AC00
    let s = Windows949Codec.decode_strict(&[0xb0, 0xa1]).unwrap();
    assert_eq!(s, "\u{ac00}");
}

#[test]
fn win949_encodes_hangul() {
    let bytes = Windows949Codec.encode("\u{ac00}").unwrap();
    assert_eq!(bytes, vec![0xb0, 0xa1]);
}

#[test]
fn win949_ascii_passthrough() {
    assert_eq!(Windows949Codec.decode_strict(&[0x41, 0x42]), Ok(String::from("AB")));
    assert_eq!(Windows949Codec.encode("AB").unwrap(), vec![0x41, 0x42]);
}

#[test]
fn win949_strict_rejects_invalid_bytes() {
    assert_eq!(Windows949Codec.decode_strict(&[0xff, 0xff]), Err(ShnError::InvalidEncoding));
}
