use base64::Engine;
use simadmin_ims::codec::{from_base64, text_of, Base64Error, HexError};

#[test]
fn text_is_read_back() {
    for s in ["", "plain", "é日本\u{10ffff}", "\r\n"] {
        assert_eq!(text_of(s.as_bytes()), s);
    }
}

#[test]
fn malformed_text_is_repaired() {
    assert_eq!(text_of(b"a\xffb"), "a\u{fffd}b");
    assert_eq!(text_of(b"\xe6\x97"), "\u{fffd}");
}

#[test]
fn text_before_malformed_bytes_is_kept() {
    for x in [&b"\xff"[..], &b"\xe6\x97"[..], &b"\xf0\x9f\x98 tail"[..], &b"\xed\xa0\x80"[..], &b"\xc0\xaf"[..]] {
        let mut bytes = "é日本\u{10ffff} plain".as_bytes().to_vec();
        bytes.extend_from_slice(x);
        let t = text_of(&bytes);
        assert!(t.starts_with("é日本\u{10ffff} plain\u{fffd}"));
    }
}

#[test]
fn base64_is_read_back() {
    for n in 0..70usize {
        let bytes: Vec<u8> = (0..n).map(|i| (i * 91 + 5) as u8).collect();
        let text = base64::engine::general_purpose::STANDARD.encode(&bytes);
        assert_eq!(from_base64(text.as_bytes()), Ok(bytes));
    }
}

#[test]
fn text_that_is_no_base64() {
    assert_eq!(from_base64(b"AA*A"), Err(Base64Error::InvalidByte { index: 2, byte: b'*' }));
    assert_eq!(from_base64(b"AAAAA"), Err(Base64Error::InvalidLength { len: 5 }));
    assert_eq!(from_base64(b"AB=="), Err(Base64Error::InvalidLastSymbol { index: 1, byte: b'B' }));
    assert_eq!(from_base64(b"AA="), Err(Base64Error::InvalidPadding));
    assert_eq!(from_base64(b"AA==AAAA"), Err(Base64Error::InvalidByte { index: 2, byte: b'=' }));
    assert_eq!(from_base64(b"AA-_"), Err(Base64Error::InvalidByte { index: 2, byte: b'-' }));
}

#[test]
fn messages_of_base64_errors() {
    for (e, d) in [
        (Base64Error::InvalidByte { index: 2, byte: 42 }, base64::DecodeError::InvalidByte(2, 42)),
        (Base64Error::InvalidLength { len: 5 }, base64::DecodeError::InvalidLength(5)),
        (
            Base64Error::InvalidLastSymbol { index: 1, byte: 66 },
            base64::DecodeError::InvalidLastSymbol(1, 66),
        ),
        (Base64Error::InvalidPadding, base64::DecodeError::InvalidPadding),
    ] {
        assert_eq!(e.message(), d.to_string());
    }
}

#[test]
fn messages_of_hex_errors() {
    assert_eq!(
        HexError::InvalidHexCharacter { c: 'g', index: 12 }.message(),
        "Invalid character 'g' at position 12"
    );
    assert_eq!(
        HexError::InvalidHexCharacter { c: '"', index: 0 }.message(),
        "Invalid character '\"' at position 0"
    );
    assert_eq!(HexError::OddLength.message(), "Odd number of digits");
    assert_eq!(HexError::InvalidStringLength.message(), "Invalid string length");
    for n in 0x20u8..=0x7e {
        let c = n as char;
        if c != '\'' && c != '\\' {
            assert_eq!(
                HexError::InvalidHexCharacter { c, index: 3 }.message(),
                format!("Invalid character '{}' at position 3", c)
            );
        }
    }
}
