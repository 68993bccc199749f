mod b64;
mod backends;
mod engine;
mod errors;
mod format;
mod genpass;
mod options;
mod process;

pub use b64::{
    decode_b64, decode_b64_standard, encode_b64, encode_b64_standard, parse_base64_format,
    Base64Format,
};
pub use engine::{
    Blake3, Chacha20poly1305EncryptAndDecrypt, Ed25519Signer, Ed25519Verifier, KeyGenerator,
    KeyLoader, TextDecrypt, TextEncrypt, TextSign, TextVerify,
};
pub use errors::CryptoError;
pub use format::{parse_format, parse_text_sign_format, OutputFormat, TextSignFormat};
pub use genpass::process_genpass;
pub use options::{
    parse_duration, verfiy_len, Base64DecodeOpts, Base64EncodeOpts, Base64SubCommand,
    Chacha20DecryptOpts, Chacha20EncryptOpts, CsvOpt, GenPassOpts, HttpServeOpts, HttpSubCommand,
    JwtSignOpts, JwtSubCommand, JwtVerifyOpts, KeyGenerateOpts, Opts, Player, Subcommand,
    TextSignOpts, TextSubCommand, TextVerifyOpts,
};
pub use process::{
    process_decrypt, process_encrypt, process_key_generate, process_sign, process_verify,
};
