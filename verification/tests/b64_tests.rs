use base64::engine::general_purpose::{STANDARD, URL_SAFE_NO_PAD};
use base64::Engine;
use rcli::{
    decode_b64, decode_b64_standard, encode_b64, encode_b64_standard, parse_base64_format,
    Base64Format, CryptoError,
};

#[test]
fn encode_rfc_vectors() {
    assert_eq!(encode_b64(b""), "");
    assert_eq!(encode_b64(b"f"), "Zg");
    assert_eq!(encode_b64(b"fo"), "Zm8");
    assert_eq!(encode_b64(b"foo"), "Zm9v");
    assert_eq!(encode_b64(b"foob"), "Zm9vYg");
    assert_eq!(encode_b64(b"fooba"), "Zm9vYmE");
    assert_eq!(encode_b64(b"foobar"), "Zm9vYmFy");
}

#[test]
fn encode_matches_reference_engine() {
    let cases: Vec<Vec<u8>> = vec![
        vec![],
        vec![0],
        vec![255],
        vec![251, 255],
        vec![0xfb, 0xef, 0xbe],
        vec![0, 1, 2, 3, 4, 5, 6, 7, 8, 9, 250, 251, 252, 253, 254, 255],
        (0u8..=255).collect(),
    ];
    for case in &cases {
        assert_eq!(encode_b64(case), URL_SAFE_NO_PAD.encode(case));
    }
}

#[test]
fn decode_round_trips() {
    let cases: Vec<Vec<u8>> = vec![
        vec![],
        vec![42],
        vec![1, 2],
        vec![1, 2, 3],
        vec![1, 2, 3, 4],
        (0u8..=255).collect(),
    ];
    for case in &cases {
        let text = encode_b64(case);
        assert_eq!(&decode_b64(&text).unwrap(), case);
    }
}

#[test]
fn decode_matches_reference_engine() {
    let inputs = ["", "Zg", "Zm8", "Zm9v", "-_8", "AA", "AAA", "AAAA"];
    for text in &inputs {
        let ours = decode_b64(text).unwrap();
        let theirs = URL_SAFE_NO_PAD.decode(text).unwrap();
        assert_eq!(ours, theirs);
    }
}

#[test]
fn decode_rejects_bad_length() {
    assert_eq!(decode_b64("A"), Err(CryptoError::EncodingError));
    assert_eq!(decode_b64("AAAAA"), Err(CryptoError::EncodingError));
    assert!(URL_SAFE_NO_PAD.decode("A").is_err());
}

#[test]
fn decode_rejects_bad_characters() {
    assert_eq!(decode_b64("Zg=="), Err(CryptoError::EncodingError));
    assert_eq!(decode_b64("Z!"), Err(CryptoError::EncodingError));
    assert_eq!(decode_b64("Zm+v"), Err(CryptoError::EncodingError));
    assert_eq!(decode_b64("Zm/v"), Err(CryptoError::EncodingError));
    assert_eq!(decode_b64("héllo"), Err(CryptoError::EncodingError));
}

#[test]
fn decode_rejects_nonzero_trailing_bits() {
    // 'h' carries low bits that no byte accounts for.
    assert_eq!(decode_b64("Zh"), Err(CryptoError::EncodingError));
    assert!(URL_SAFE_NO_PAD.decode("Zh").is_err());
    assert_eq!(decode_b64("Zm9"), Err(CryptoError::EncodingError));
    assert!(URL_SAFE_NO_PAD.decode("Zm9").is_err());
}

#[test]
fn parse_base64_format_names() {
    assert_eq!(parse_base64_format("standard"), Ok(Base64Format::Standard));
    assert_eq!(parse_base64_format("urlsafe"), Ok(Base64Format::UrlSafe));
    assert_eq!(parse_base64_format("base64"), Err(CryptoError::EncodingError));
}

#[test]
fn standard_encode_rfc_vectors() {
    assert_eq!(encode_b64_standard(b""), "");
    assert_eq!(encode_b64_standard(b"f"), "Zg==");
    assert_eq!(encode_b64_standard(b"fo"), "Zm8=");
    assert_eq!(encode_b64_standard(b"foo"), "Zm9v");
    assert_eq!(encode_b64_standard(b"foob"), "Zm9vYg==");
    assert_eq!(encode_b64_standard(b"fooba"), "Zm9vYmE=");
    assert_eq!(encode_b64_standard(b"foobar"), "Zm9vYmFy");
}

#[test]
fn standard_encode_matches_reference_engine() {
    let cases: Vec<Vec<u8>> = vec![
        vec![],
        vec![0],
        vec![255],
        vec![251, 255],
        vec![0xfb, 0xef, 0xbe],
        (0u8..=255).collect(),
    ];
    for case in &cases {
        assert_eq!(encode_b64_standard(case), STANDARD.encode(case));
    }
}

#[test]
fn standard_decode_round_trips() {
    let cases: Vec<Vec<u8>> = vec![
        vec![],
        vec![42],
        vec![1, 2],
        vec![1, 2, 3],
        vec![1, 2, 3, 4],
        (0u8..=255).collect(),
    ];
    for case in &cases {
        let text = encode_b64_standard(case);
        assert_eq!(&decode_b64_standard(&text).unwrap(), case);
    }
}

#[test]
fn standard_decode_matches_reference_engine() {
    let inputs = ["", "Zg==", "Zm8=", "Zm9v", "+/8=", "AA==", "AAA=", "AAAA"];
    for text in &inputs {
        let ours = decode_b64_standard(text).unwrap();
        let theirs = STANDARD.decode(text).unwrap();
        assert_eq!(ours, theirs);
    }
}

#[test]
fn standard_decode_rejects_malformed_text() {
    // Unpadded, misplaced padding, too much padding, wrong alphabet,
    // non-zero trailing bits.
    for text in ["Zg", "Zm8", "A", "Z===", "====", "=AAA", "A=AA", "Zm-v", "Zm_v", "Zh==", "Zm9="]
    {
        assert_eq!(
            decode_b64_standard(text),
            Err(CryptoError::EncodingError),
            "{}",
            text
        );
        assert!(STANDARD.decode(text).is_err(), "{}", text);
    }
}
