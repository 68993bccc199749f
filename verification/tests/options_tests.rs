use rcli::{
    parse_duration, parse_format, parse_text_sign_format, process_genpass, verfiy_len,
    CryptoError, OutputFormat, TextSignFormat,
};

#[test]
fn parse_text_sign_format_names() {
    assert_eq!(parse_text_sign_format("blake3"), Ok(TextSignFormat::Blake3));
    assert_eq!(parse_text_sign_format("ed25519"), Ok(TextSignFormat::Ed25519));
    assert_eq!(
        parse_text_sign_format("chacha20poly1305"),
        Ok(TextSignFormat::Chacha20poly1305)
    );
    assert_eq!(
        parse_text_sign_format("sha256"),
        Err(CryptoError::EncodingError)
    );
}

#[test]
fn parse_output_format_names() {
    assert_eq!(parse_format("json"), Ok(OutputFormat::Json));
    assert_eq!(parse_format("yaml"), Ok(OutputFormat::Yaml));
    assert_eq!(parse_format("toml"), Err(CryptoError::EncodingError));
    assert_eq!(parse_format("xml"), Err(CryptoError::EncodingError));
}

#[test]
fn format_tags() {
    assert_eq!(TextSignFormat::Blake3.name(), "blake3");
    assert_eq!(TextSignFormat::Ed25519.name(), "ed25519");
    assert_eq!(TextSignFormat::Chacha20poly1305.name(), "chacha20poly1305");
    assert_eq!(OutputFormat::Json.name(), "json");
    assert_eq!(OutputFormat::Yaml.name(), "yaml");
    assert_eq!(OutputFormat::Toml.name(), "toml");
}

#[test]
fn durations_add_up() {
    assert_eq!(parse_duration("14d"), Ok(14 * 24 * 60 * 60));
    assert_eq!(parse_duration("1h30m"), Ok(5400));
    assert_eq!(parse_duration("90s"), Ok(90));
    assert_eq!(parse_duration("2m5s"), Ok(125));
    assert_eq!(parse_duration(""), Ok(0));
    // Digits with no unit behind them are dropped.
    assert_eq!(parse_duration("5"), Ok(0));
    assert_eq!(parse_duration("1d5"), Ok(86400));
}

#[test]
fn durations_reject_malformed_expressions() {
    assert_eq!(parse_duration("s"), Err(CryptoError::EncodingError));
    assert_eq!(parse_duration("10x"), Err(CryptoError::EncodingError));
    assert_eq!(parse_duration("d10"), Err(CryptoError::EncodingError));
    assert_eq!(parse_duration("1h m"), Err(CryptoError::EncodingError));
}

#[test]
fn durations_reject_overflow() {
    assert_eq!(
        parse_duration("99999999999999999999999999d"),
        Err(CryptoError::EncodingError)
    );
    assert_eq!(
        parse_duration("18446744073709551615s1s"),
        Err(CryptoError::EncodingError)
    );
}

#[test]
fn verfiy_len_caps_at_1000_bytes() {
    let ok = "a".repeat(1000);
    assert_eq!(verfiy_len(&ok), Ok(ok.clone()));
    let long = "a".repeat(1001);
    assert_eq!(verfiy_len(&long), Err(CryptoError::EncodingError));
}

#[test]
fn genpass_produces_mixed_classes() {
    let pw = process_genpass(32, true, true, true, true).unwrap();
    assert_eq!(pw.len(), 32);
    assert!(pw.chars().any(|c| c.is_ascii_uppercase()));
    assert!(pw.chars().any(|c| c.is_ascii_lowercase()));
    assert!(pw.chars().any(|c| c.is_ascii_digit()));
    assert!(pw.chars().any(|c| !c.is_ascii_alphanumeric()));
    assert!(pw.chars().all(|c| c.is_ascii_graphic()));
}

#[test]
fn genpass_respects_class_selection() {
    let pw = process_genpass(16, false, true, true, false).unwrap();
    assert_eq!(pw.len(), 16);
    assert!(pw
        .chars()
        .all(|c| c.is_ascii_lowercase() || c.is_ascii_digit()));
}

#[test]
fn genpass_with_no_classes_is_rejected() {
    assert!(matches!(
        process_genpass(8, false, false, false, false),
        Err(CryptoError::UnsupportedOperation)
    ));
}

#[test]
fn genpass_zero_length() {
    let pw = process_genpass(0, true, true, true, true).unwrap();
    assert_eq!(pw.len(), 0);
}

#[test]
fn error_messages_are_nonempty() {
    for e in [
        CryptoError::InputNotFound,
        CryptoError::KeyFormatError,
        CryptoError::UnsupportedOperation,
        CryptoError::CryptoFailure,
        CryptoError::EncodingError,
    ] {
        assert!(!e.message().is_empty());
    }
}
