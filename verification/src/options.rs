use vstd::prelude::*;

verus! {

use vstd::utf8::encode_utf8;
use crate::b64::Base64Format;
use crate::errors::CryptoError;
use crate::format::{OutputFormat, TextSignFormat};

// ---------------------------------------------------------------------------
// Command descriptions
//
// Plain data carried from the command line into the library. The outer
// shell parses arguments into these shapes, resolves every input source to
// bytes, and hands them over.
// ---------------------------------------------------------------------------
/// The whole invocation: exactly one command.
#[derive(Debug)]
pub struct Opts {
    pub cmd: Subcommand,
}

/// The commands the tool understands.
#[derive(Debug)]
pub enum Subcommand {
    Csv(CsvOpt),
    GenPass(GenPassOpts),
    Base64(Base64SubCommand),
    Text(TextSubCommand),
    Http(HttpSubCommand),
    Jwt(JwtSubCommand),
}

/// Convert tabular data into a serialised document.
#[derive(Debug)]
pub struct CsvOpt {
    pub input: String,
    pub format: OutputFormat,
    pub output: Option<String>,
    pub delimiter: char,
    pub header: bool,
}

/// One row of the example tabular data.
#[derive(Debug)]
pub struct Player {
    pub name: String,
    pub position: String,
    pub dob: String,
    pub nationality: String,
    pub kit: u8,
}

/// Generate a random password.
#[derive(Debug)]
pub struct GenPassOpts {
    pub length: u8,
    pub uppercase: bool,
    pub lowercase: bool,
    pub number: bool,
    pub symbol: bool,
}

/// Encode or decode base64 text.
#[derive(Debug)]
pub enum Base64SubCommand {
    Encode(Base64EncodeOpts),
    Decode(Base64DecodeOpts),
}

/// Encode an input source as base64 text.
#[derive(Debug)]
pub struct Base64EncodeOpts {
    pub input: String,
    pub format: Base64Format,
}

/// Decode base64 text from an input source.
#[derive(Debug)]
pub struct Base64DecodeOpts {
    pub input: String,
    pub format: Base64Format,
}

/// Sign, verify, encrypt, decrypt or generate keys.
#[derive(Debug)]
pub enum TextSubCommand {
    Sign(TextSignOpts),
    Verify(TextVerifyOpts),
    Encrypt(Chacha20EncryptOpts),
    Decrypt(Chacha20DecryptOpts),
    Generate(KeyGenerateOpts),
}

/// Sign an input with a key file under a selected family.
#[derive(Debug)]
pub struct TextSignOpts {
    pub input: String,
    pub key: String,
    pub format: TextSignFormat,
}

/// Verify base64 signature text against an input and a key file.
#[derive(Debug)]
pub struct TextVerifyOpts {
    pub input: String,
    pub key: String,
    pub sig: String,
    pub format: TextSignFormat,
}

/// Encrypt an input with a `nonce || key` file.
#[derive(Debug)]
pub struct Chacha20EncryptOpts {
    pub input: String,
    pub key: String,
}

/// Decrypt base64 ciphertext text with a `nonce || key` file.
#[derive(Debug)]
pub struct Chacha20DecryptOpts {
    pub sig: String,
    pub key: String,
}

/// Generate fresh key material and persist it under a directory.
#[derive(Debug)]
pub struct KeyGenerateOpts {
    pub format: TextSignFormat,
    pub output_path: String,
}

/// Serve a directory over HTTP.
#[derive(Debug)]
pub enum HttpSubCommand {
    Serve(HttpServeOpts),
}

/// Where to serve from and on which port.
#[derive(Debug)]
pub struct HttpServeOpts {
    pub dir: String,
    pub port: u16,
}

/// Issue or check a token.
#[derive(Debug)]
pub enum JwtSubCommand {
    Sign(JwtSignOpts),
    Verify(JwtVerifyOpts),
}

/// The claims of a token to issue.
#[derive(Debug)]
pub struct JwtSignOpts {
    pub sub: String,
    pub aud: String,
    pub exp: String,
}

/// A token to check.
#[derive(Debug)]
pub struct JwtVerifyOpts {
    pub t: String,
}

// ---------------------------------------------------------------------------
// Argument validation
// ---------------------------------------------------------------------------
/// Accept an argument of at most 1000 bytes, unchanged.
pub fn verfiy_len(arg: &str) -> (r: Result<String, CryptoError>)
    ensures
        arg.len() <= 1000 ==> (r matches Ok(s) && s@ == arg@),
        arg.len() > 1000 ==> r == Err::<String, CryptoError>(CryptoError::EncodingError),
{
    if arg.len() > 1000 {
        Err(CryptoError::EncodingError)
    } else {
        Ok(arg.to_owned())
    }
}

// ---------------------------------------------------------------------------
// Duration expressions
// ---------------------------------------------------------------------------
/// Seconds per unit letter: s, m, h, d.
pub open spec fn unit_seconds(b: u8) -> Option<int> {
    if b == 115 {
        Some(1int)
    } else if b == 109 {
        Some(60int)
    } else if b == 104 {
        Some(3600int)
    } else if b == 100 {
        Some(86400int)
    } else {
        None
    }
}

/// The seconds denoted by a duration expression such as `14d` or `1h30m`:
/// runs of digits followed by a unit letter add up; digits without a final
/// unit are dropped; a unit without digits, or any other character, is
/// an error. `num` holds the digits read so far, `total` the seconds so far.
pub open spec fn spec_duration(s: Seq<u8>, num: Option<int>, total: int) -> Option<int>
    decreases s.len(),
{
    if s.len() == 0 {
        Some(total)
    } else {
        let b = s[0];
        if 48 <= b <= 57 {
            spec_duration(
                s.skip(1),
                Some(
                    (match num {
                        Some(n) => n,
                        None => 0int,
                    }) * 10 + (b - 48),
                ),
                total,
            )
        } else {
            match unit_seconds(b) {
                None => None,
                Some(u) => match num {
                    None => None,
                    Some(n) => spec_duration(s.skip(1), None, total + n * u),
                },
            }
        }
    }
}

proof fn lemma_duration_monotone(s: Seq<u8>, num: Option<int>, total: int)
    requires
        (num matches Some(n) ==> n >= 0),
        total >= 0,
    ensures
        (spec_duration(s, num, total) matches Some(v) ==> v >= total),
    decreases s.len(),
{
    if s.len() > 0 {
        let b = s[0];
        if 48 <= b <= 57 {
            let n0: int = match num {
                Some(n) => n,
                None => 0int,
            };
            lemma_duration_monotone(s.skip(1), Some(n0 * 10 + (b - 48)), total);
        } else {
            match unit_seconds(b) {
                None => {},
                Some(u) => match num {
                    None => {},
                    Some(n) => {
                        lemma_duration_monotone(s.skip(1), None, total + n * u);
                    },
                },
            }
        }
    }
}

/// Parse a duration expression into seconds. Fails on a malformed
/// expression, and on one whose value does not fit in 64 bits.
pub fn parse_duration(exp: &str) -> (r: Result<u64, CryptoError>)
    ensures
        (match r {
            Ok(n) => spec_duration(encode_utf8(exp@), None, 0) == Some(n as int),
            Err(e) => e == CryptoError::EncodingError && (match spec_duration(
                encode_utf8(exp@),
                None,
                0,
            ) {
                None => true,
                Some(v) => v > u64::MAX,
            }),
        }),
{
    let bytes: &[u8] = exp.as_bytes();
    let n = bytes.len();
    let mut total: u64 = 0;
    let mut cur: Option<u64> = None;
    let ghost mut numspec: Option<int> = None;
    let mut over: bool = false;
    let mut i: usize = 0;
    proof {
        assert(bytes@.skip(0) =~= bytes@);
    }
    while i < n
        invariant
            i <= n,
            n == bytes@.len(),
            bytes@ == encode_utf8(exp@),
            spec_duration(bytes@, None, 0) == spec_duration(bytes@.skip(i as int), numspec, total as int),
            !over ==> (match cur {
                Some(c) => numspec == Some(c as int),
                None => numspec is None,
            }),
            over ==> (numspec matches Some(v) && v > u64::MAX),
            (numspec matches Some(v) ==> v >= 0),
        decreases n - i,
    {
        let b = bytes[i];
        proof {
            assert(bytes@.skip(i as int)[0] == b);
            assert(bytes@.skip(i as int).skip(1) =~= bytes@.skip(i + 1));
        }
        if 48 <= b && b <= 57 {
            let d = b - 48;
            let ghost n0: int = match numspec {
                Some(v) => v,
                None => 0int,
            };
            if over {
                proof {
                    numspec = Some(n0 * 10 + (b - 48));
                    assert(n0 * 10 >= n0) by (nonlinear_arith)
                        requires
                            n0 >= 0,
                    ;
                }
            } else {
                let grown = match cur {
                    Some(c) => c.checked_mul(10),
                    None => Some(0u64),
                };
                let grown = match grown {
                    Some(g) => g.checked_add(d as u64),
                    None => None,
                };
                match grown {
                    Some(g) => {
                        cur = Some(g);
                        proof {
                            numspec = Some(n0 * 10 + (b - 48));
                        }
                    },
                    None => {
                        over = true;
                        proof {
                            numspec = Some(n0 * 10 + (b - 48));
                            assert(n0 * 10 + (b - 48) > u64::MAX) by (nonlinear_arith)
                                requires
                                    n0 >= 0,
                                    48 <= b <= 57,
                                    n0 * 10 > u64::MAX || (n0 * 10 <= u64::MAX && n0 * 10 + (b
                                        - 48) > u64::MAX),
                            ;
                        }
                    },
                }
            }
        } else {
            let u: u64 = if b == 115 {
                1
            } else if b == 109 {
                60
            } else if b == 104 {
                3600
            } else if b == 100 {
                86400
            } else {
                return Err(CryptoError::EncodingError);
            };
            let c = match cur {
                Some(c) => c,
                None => {
                    if !over {
                        return Err(CryptoError::EncodingError);
                    }
                    0
                },
            };
            let ghost nv: int = numspec->Some_0;
            if over {
                proof {
                    assert(nv * (u as int) >= nv) by (nonlinear_arith)
                        requires
                            nv >= 0,
                            u >= 1,
                    ;
                    lemma_duration_monotone(
                        bytes@.skip(i + 1),
                        None::<int>,
                        total as int + nv * (u as int),
                    );
                }
                return Err(CryptoError::EncodingError);
            }
            let stepped = match c.checked_mul(u) {
                Some(m) => total.checked_add(m),
                None => None,
            };
            match stepped {
                Some(t) => {
                    total = t;
                    cur = None;
                    proof {
                        numspec = None;
                    }
                },
                None => {
                    proof {
                        assert(nv * (u as int) >= 0) by (nonlinear_arith)
                            requires
                                nv >= 0,
                                u >= 1,
                        ;
                        lemma_duration_monotone(
                            bytes@.skip(i + 1),
                            None::<int>,
                            total as int + nv * (u as int),
                        );
                        assert(total as int + nv * (u as int) > u64::MAX) by (nonlinear_arith)
                            requires
                                nv >= 0,
                                u >= 1,
                                nv * (u as int) > u64::MAX || (nv * (u as int) <= u64::MAX && total
                                    as int + nv * (u as int) > u64::MAX),
                        ;
                    }
                    return Err(CryptoError::EncodingError);
                },
            }
        }
        i = i + 1;
    }
    proof {
        assert(bytes@.skip(n as int).len() == 0);
    }
    Ok(total)
}

} // verus!
