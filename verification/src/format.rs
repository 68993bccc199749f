use vstd::prelude::*;

verus! {

use crate::errors::CryptoError;

/// The algorithm family selected for one call, immutable once chosen.
#[derive(Clone, Copy, Debug, PartialEq, Eq, Structural)]
pub enum TextSignFormat {
    Blake3,
    Ed25519,
    Chacha20poly1305,
}

impl TextSignFormat {
    /// The textual tag of this family, as it appears on the command line.
    pub fn name(&self) -> (r: &'static str)
        ensures
            match self {
                TextSignFormat::Blake3 => r@ == "blake3"@,
                TextSignFormat::Ed25519 => r@ == "ed25519"@,
                TextSignFormat::Chacha20poly1305 => r@ == "chacha20poly1305"@,
            },
    {
        match self {
            TextSignFormat::Blake3 => "blake3",
            TextSignFormat::Ed25519 => "ed25519",
            TextSignFormat::Chacha20poly1305 => "chacha20poly1305",
        }
    }
}

/// Parse the textual name of an algorithm family.
pub fn parse_text_sign_format(format: &str) -> (r: Result<TextSignFormat, CryptoError>)
    ensures
        format@ == "blake3"@ ==> r == Ok::<TextSignFormat, CryptoError>(TextSignFormat::Blake3),
        format@ == "ed25519"@ ==> r == Ok::<TextSignFormat, CryptoError>(TextSignFormat::Ed25519),
        format@ == "chacha20poly1305"@ ==> r == Ok::<TextSignFormat, CryptoError>(
            TextSignFormat::Chacha20poly1305,
        ),
        format@ != "blake3"@ && format@ != "ed25519"@ && format@ != "chacha20poly1305"@ ==> r
            == Err::<TextSignFormat, CryptoError>(CryptoError::EncodingError),
{
    proof {
        reveal_strlit("blake3");
        reveal_strlit("ed25519");
        reveal_strlit("chacha20poly1305");
        assert("blake3"@.len() == 6);
        assert("ed25519"@.len() == 7);
        assert("chacha20poly1305"@.len() == 16);
    }
    let f = format.to_owned();
    if f == String::from_str("blake3") {
        Ok(TextSignFormat::Blake3)
    } else if f == String::from_str("ed25519") {
        Ok(TextSignFormat::Ed25519)
    } else if f == String::from_str("chacha20poly1305") {
        Ok(TextSignFormat::Chacha20poly1305)
    } else {
        Err(CryptoError::EncodingError)
    }
}

/// The serialisation target of the tabular-data converter.
#[derive(Clone, Copy, Debug, PartialEq, Eq, Structural)]
pub enum OutputFormat {
    Json,
    Yaml,
    Toml,
}

impl OutputFormat {
    /// The textual tag of this output format.
    pub fn name(&self) -> (r: &'static str)
        ensures
            match self {
                OutputFormat::Json => r@ == "json"@,
                OutputFormat::Yaml => r@ == "yaml"@,
                OutputFormat::Toml => r@ == "toml"@,
            },
    {
        match self {
            OutputFormat::Json => "json",
            OutputFormat::Yaml => "yaml",
            OutputFormat::Toml => "toml",
        }
    }
}

/// Parse the textual name of an output format. Only the JSON and YAML names
/// are understood.
pub fn parse_format(format: &str) -> (r: Result<OutputFormat, CryptoError>)
    ensures
        format@ == "json"@ ==> r == Ok::<OutputFormat, CryptoError>(OutputFormat::Json),
        format@ == "yaml"@ ==> r == Ok::<OutputFormat, CryptoError>(OutputFormat::Yaml),
        format@ != "json"@ && format@ != "yaml"@ ==> r == Err::<OutputFormat, CryptoError>(
            CryptoError::EncodingError,
        ),
{
    proof {
        reveal_strlit("json");
        reveal_strlit("yaml");
        assert("json"@.len() == 4);
        assert("yaml"@[0] == 'y' && "json"@[0] == 'j');
    }
    let f = format.to_owned();
    if f == String::from_str("json") {
        Ok(OutputFormat::Json)
    } else if f == String::from_str("yaml") {
        Ok(OutputFormat::Yaml)
    } else {
        Err(CryptoError::EncodingError)
    }
}

} // verus!
