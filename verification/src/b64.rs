use vstd::prelude::*;

verus! {

use vstd::utf8::{encode_utf8, is_ascii_chars, is_ascii_chars_encode_utf8};
use vstd::arithmetic::div_mod::lemma_fundamental_div_mod_converse;
use crate::errors::CryptoError;
use crate::backends::ascii_to_string;

/// The base64 alphabet in use at a boundary. The engine itself always speaks
/// the URL-safe, unpadded flavour.
#[derive(Clone, Copy, Debug, PartialEq, Eq, Structural)]
pub enum Base64Format {
    Standard,
    UrlSafe,
}

/// The byte of the URL-safe alphabet that stands for a 6-bit value.
pub open spec fn b64_byte_of(v: int) -> u8
    recommends
        0 <= v < 64,
{
    if v < 26 {
        (65 + v) as u8  // 'A'..='Z'
    } else if v < 52 {
        (97 + v - 26) as u8  // 'a'..='z'
    } else if v < 62 {
        (48 + v - 52) as u8  // '0'..='9'
    } else if v == 62 {
        45u8  // '-'
    } else {
        95u8  // '_'
    }
}

/// Whether a byte belongs to the URL-safe alphabet.
pub open spec fn is_b64_byte(b: u8) -> bool {
    (65 <= b <= 90) || (97 <= b <= 122) || (48 <= b <= 57) || b == 45 || b == 95
}

/// The 6-bit value that an alphabet byte stands for.
pub open spec fn b64_val(b: u8) -> int
    recommends
        is_b64_byte(b),
{
    if 65 <= b <= 90 {
        b - 65
    } else if 97 <= b <= 122 {
        26 + b - 97
    } else if 48 <= b <= 57 {
        52 + b - 48
    } else if b == 45 {
        62
    } else {
        63
    }
}

/// The four alphabet bytes that encode a group of three input bytes.
pub open spec fn encode_group(b0: u8, b1: u8, b2: u8) -> Seq<u8> {
    seq![
        b64_byte_of(b0 as int / 4),
        b64_byte_of((b0 as int % 4) * 16 + b1 as int / 16),
        b64_byte_of((b1 as int % 16) * 4 + b2 as int / 64),
        b64_byte_of(b2 as int % 64),
    ]
}

/// URL-safe, unpadded base64: the encoded bytes of an input byte sequence.
pub open spec fn spec_b64_encode(s: Seq<u8>) -> Seq<u8>
    decreases s.len(),
{
    if s.len() >= 3 {
        encode_group(s[0], s[1], s[2]) + spec_b64_encode(s.skip(3))
    } else if s.len() == 2 {
        seq![
            b64_byte_of(s[0] as int / 4),
            b64_byte_of((s[0] as int % 4) * 16 + s[1] as int / 16),
            b64_byte_of((s[1] as int % 16) * 4),
        ]
    } else if s.len() == 1 {
        seq![b64_byte_of(s[0] as int / 4), b64_byte_of((s[0] as int % 4) * 16)]
    } else {
        Seq::<u8>::empty()
    }
}

/// The three bytes that a group of four alphabet bytes decodes to.
pub open spec fn decode_group(c0: u8, c1: u8, c2: u8, c3: u8) -> Seq<u8> {
    seq![
        (b64_val(c0) * 4 + b64_val(c1) / 16) as u8,
        ((b64_val(c1) % 16) * 16 + b64_val(c2) / 4) as u8,
        ((b64_val(c2) % 4) * 64 + b64_val(c3)) as u8,
    ]
}

/// URL-safe, unpadded base64 decoding. `None` on any byte outside the
/// alphabet, on a length that is 1 more than a multiple of 4, and on
/// non-zero trailing bits.
pub open spec fn spec_b64_decode(s: Seq<u8>) -> Option<Seq<u8>>
    decreases s.len(),
{
    if s.len() == 0 {
        Some(Seq::<u8>::empty())
    } else if s.len() == 1 {
        None
    } else if s.len() == 2 {
        if is_b64_byte(s[0]) && is_b64_byte(s[1]) && b64_val(s[1]) % 16 == 0 {
            Some(seq![(b64_val(s[0]) * 4 + b64_val(s[1]) / 16) as u8])
        } else {
            None
        }
    } else if s.len() == 3 {
        if is_b64_byte(s[0]) && is_b64_byte(s[1]) && is_b64_byte(s[2]) && b64_val(s[2]) % 4
            == 0 {
            Some(
                seq![
                    (b64_val(s[0]) * 4 + b64_val(s[1]) / 16) as u8,
                    ((b64_val(s[1]) % 16) * 16 + b64_val(s[2]) / 4) as u8,
                ],
            )
        } else {
            None
        }
    } else {
        if is_b64_byte(s[0]) && is_b64_byte(s[1]) && is_b64_byte(s[2]) && is_b64_byte(s[3]) {
            match spec_b64_decode(s.skip(4)) {
                Some(rest) => Some(decode_group(s[0], s[1], s[2], s[3]) + rest),
                None => None,
            }
        } else {
            None
        }
    }
}

/// The characters that a sequence of ASCII bytes reads as.
pub open spec fn chars_of_bytes(s: Seq<u8>) -> Seq<char> {
    s.map_values(|b: u8| b as char)
}

proof fn lemma_alphabet_round_trip(v: int)
    requires
        0 <= v < 64,
    ensures
        is_b64_byte(b64_byte_of(v)),
        b64_val(b64_byte_of(v)) == v,
{
}

/// Every encoded byte belongs to the alphabet.
pub proof fn lemma_encode_bytes_valid(s: Seq<u8>)
    ensures
        forall|i: int|
            0 <= i < spec_b64_encode(s).len() ==> is_b64_byte(#[trigger] spec_b64_encode(s)[i]),
    decreases s.len(),
{
    if s.len() >= 3 {
        lemma_encode_bytes_valid(s.skip(3));
        let e = spec_b64_encode(s);
        let g = encode_group(s[0], s[1], s[2]);
        assert forall|i: int| 0 <= i < e.len() implies is_b64_byte(#[trigger] e[i]) by {
            if i < 4 {
                assert(e[i] == g[i]);
            } else {
                assert(e[i] == spec_b64_encode(s.skip(3))[i - 4]);
            }
        }
    }
}

/// ASCII bytes, read as characters, encode in UTF-8 back to the same bytes.
pub proof fn lemma_ascii_bytes_chars(s: Seq<u8>)
    requires
        forall|i: int| 0 <= i < s.len() ==> s[i] < 128,
    ensures
        is_ascii_chars(chars_of_bytes(s)),
        encode_utf8(chars_of_bytes(s)) == s,
{
    let cs = chars_of_bytes(s);
    assert forall|i: int| 0 <= i < cs.len() implies '\0' <= #[trigger] cs[i] <= '\u{7f}' by {
        assert(cs[i] == s[i] as char);
    }
    is_ascii_chars_encode_utf8(cs);
    assert(encode_utf8(cs) =~= s);
}

proof fn lemma_group_round_trip(b0: u8, b1: u8, b2: u8)
    ensures
        ({
            let g = encode_group(b0, b1, b2);
            &&& is_b64_byte(g[0])
            &&& is_b64_byte(g[1])
            &&& is_b64_byte(g[2])
            &&& is_b64_byte(g[3])
            &&& decode_group(g[0], g[1], g[2], g[3]) == seq![b0, b1, b2]
        }),
{
    let v0 = b0 as int / 4;
    let v1 = (b0 as int % 4) * 16 + b1 as int / 16;
    let v2 = (b1 as int % 16) * 4 + b2 as int / 64;
    let v3 = b2 as int % 64;
    lemma_alphabet_round_trip(v0);
    lemma_alphabet_round_trip(v1);
    lemma_alphabet_round_trip(v2);
    lemma_alphabet_round_trip(v3);
    lemma_fundamental_div_mod_converse(v1, 16, b0 as int % 4, b1 as int / 16);
    lemma_fundamental_div_mod_converse(v2, 4, b1 as int % 16, b2 as int / 64);
    let g = encode_group(b0, b1, b2);
    assert(b64_val(g[0]) == v0 && b64_val(g[1]) == v1 && b64_val(g[2]) == v2 && b64_val(g[3])
        == v3);
    assert(v0 * 4 + v1 / 16 == b0 as int);
    assert((v1 % 16) * 16 + v2 / 4 == b1 as int);
    assert((v2 % 4) * 64 + v3 == b2 as int);
    assert(decode_group(g[0], g[1], g[2], g[3]) =~= seq![b0, b1, b2]);
}

/// Encoding splits at any multiple of 3.
proof fn lemma_encode_split(s: Seq<u8>, i: int)
    requires
        0 <= i <= s.len(),
        i % 3 == 0,
    ensures
        spec_b64_encode(s) == spec_b64_encode(s.take(i)) + spec_b64_encode(s.skip(i)),
    decreases i,
{
    if i == 0 {
        assert(s.take(0) =~= Seq::<u8>::empty());
        assert(s.skip(0) =~= s);
        assert(spec_b64_encode(s) =~= spec_b64_encode(s.take(0)) + spec_b64_encode(s.skip(0)));
    } else {
        lemma_encode_split(s.skip(3), i - 3);
        assert(s.skip(3).take(i - 3) =~= s.take(i).skip(3));
        assert(s.skip(3).skip(i - 3) =~= s.skip(i));
        let t = s.take(i);
        assert(t.len() >= 3);
        assert(t[0] == s[0] && t[1] == s[1] && t[2] == s[2]);
        assert(spec_b64_encode(t) == encode_group(s[0], s[1], s[2]) + spec_b64_encode(t.skip(3)));
        assert(spec_b64_encode(s) == encode_group(s[0], s[1], s[2]) + (spec_b64_encode(
            s.skip(3).take(i - 3),
        ) + spec_b64_encode(s.skip(i))));
        assert(encode_group(s[0], s[1], s[2]) + (spec_b64_encode(s.skip(3).take(i - 3))
            + spec_b64_encode(s.skip(i))) =~= (encode_group(s[0], s[1], s[2]) + spec_b64_encode(
            t.skip(3),
        )) + spec_b64_encode(s.skip(i)));
    }
}

/// Decoding undoes encoding: the boundary codec loses nothing.
pub proof fn lemma_b64_round_trip(s: Seq<u8>)
    ensures
        spec_b64_decode(spec_b64_encode(s)) == Some(s),
    decreases s.len(),
{
    let e = spec_b64_encode(s);
    if s.len() == 0 {
        assert(e.len() == 0);
        assert(spec_b64_decode(e) == Some(Seq::<u8>::empty()));
        assert(Seq::<u8>::empty() =~= s);
    } else if s.len() == 1 {
        let v0 = s[0] as int / 4;
        let v1 = (s[0] as int % 4) * 16;
        lemma_alphabet_round_trip(v0);
        lemma_alphabet_round_trip(v1);
        lemma_fundamental_div_mod_converse(v1, 16, s[0] as int % 4, 0);
        assert(b64_val(e[1]) % 16 == 0);
        assert(b64_val(e[0]) * 4 + b64_val(e[1]) / 16 == s[0] as int);
        assert(spec_b64_decode(e) matches Some(d) && d =~= s);
    } else if s.len() == 2 {
        let v0 = s[0] as int / 4;
        let v1 = (s[0] as int % 4) * 16 + s[1] as int / 16;
        let v2 = (s[1] as int % 16) * 4;
        lemma_alphabet_round_trip(v0);
        lemma_alphabet_round_trip(v1);
        lemma_alphabet_round_trip(v2);
        lemma_fundamental_div_mod_converse(v1, 16, s[0] as int % 4, s[1] as int / 16);
        lemma_fundamental_div_mod_converse(v2, 4, s[1] as int % 16, 0);
        assert(b64_val(e[2]) % 4 == 0);
        assert(b64_val(e[0]) * 4 + b64_val(e[1]) / 16 == s[0] as int);
        assert((b64_val(e[1]) % 16) * 16 + b64_val(e[2]) / 4 == s[1] as int);
        assert(spec_b64_decode(e) matches Some(d) && d =~= s);
    } else {
        lemma_b64_round_trip(s.skip(3));
        lemma_group_round_trip(s[0], s[1], s[2]);
        let g = encode_group(s[0], s[1], s[2]);
        let rest = spec_b64_encode(s.skip(3));
        assert(e == g + rest);
        assert(e.len() >= 4);
        assert(e[0] == g[0] && e[1] == g[1] && e[2] == g[2] && e[3] == g[3]);
        assert(e.skip(4) =~= rest);
        assert(spec_b64_decode(e.skip(4)) == Some(s.skip(3)));
        assert(spec_b64_decode(e) == Some(decode_group(e[0], e[1], e[2], e[3]) + s.skip(3)));
        assert(decode_group(e[0], e[1], e[2], e[3]) + s.skip(3) =~= s);
    }
}

fn b64_byte_enc(v: u8) -> (r: u8)
    requires
        v < 64,
    ensures
        r == b64_byte_of(v as int),
        is_b64_byte(r),
{
    if v < 26 {
        65 + v
    } else if v < 52 {
        97 + (v - 26)
    } else if v < 62 {
        48 + (v - 52)
    } else if v == 62 {
        45
    } else {
        95
    }
}

fn b64_byte_dec(b: u8) -> (r: Option<u8>)
    ensures
        match r {
            Some(v) => is_b64_byte(b) && v < 64 && v as int == b64_val(b),
            None => !is_b64_byte(b),
        },
{
    if 65 <= b && b <= 90 {
        Some(b - 65)
    } else if 97 <= b && b <= 122 {
        Some(26 + (b - 97))
    } else if 48 <= b && b <= 57 {
        Some(52 + (b - 48))
    } else if b == 45 {
        Some(62)
    } else if b == 95 {
        Some(63)
    } else {
        None
    }
}

/// The URL-safe alphabet bytes that encode an input.
fn b64_encode_bytes(data: &[u8]) -> (r: Vec<u8>)
    ensures
        r@ == spec_b64_encode(data@),
        forall|j: int| 0 <= j < r@.len() ==> is_b64_byte(#[trigger] r@[j]),
{
    let n = data.len();
    let mut out: Vec<u8> = Vec::new();
    let mut i: usize = 0;
    while n - i >= 3
        invariant
            i % 3 == 0,
            i <= n,
            n == data@.len(),
            out@ == spec_b64_encode(data@.take(i as int)),
            forall|j: int| 0 <= j < out@.len() ==> is_b64_byte(#[trigger] out@[j]),
        decreases n - i,
    {
        let b0 = data[i];
        let b1 = data[i + 1];
        let b2 = data[i + 2];
        out.push(b64_byte_enc(b0 / 4));
        out.push(b64_byte_enc((b0 % 4) * 16 + b1 / 16));
        out.push(b64_byte_enc((b1 % 16) * 4 + b2 / 64));
        out.push(b64_byte_enc(b2 % 64));
        proof {
            let t = data@.take(i + 3);
            lemma_encode_split(t, i as int);
            assert(t.take(i as int) =~= data@.take(i as int));
            let tail = t.skip(i as int);
            assert(tail.len() == 3);
            assert(tail[0] == b0 && tail[1] == b1 && tail[2] == b2);
            assert(tail.skip(3) =~= Seq::<u8>::empty());
            assert(spec_b64_encode(tail) == encode_group(b0, b1, b2) + spec_b64_encode(
                tail.skip(3),
            ));
            assert(out@ =~= spec_b64_encode(data@.take(i as int)) + spec_b64_encode(tail));
        }
        i = i + 3;
    }
    if n - i == 1 {
        let b0 = data[i];
        out.push(b64_byte_enc(b0 / 4));
        out.push(b64_byte_enc((b0 % 4) * 16));
        proof {
            lemma_encode_split(data@, i as int);
            let tail = data@.skip(i as int);
            assert(tail.len() == 1 && tail[0] == b0);
            assert(out@ =~= spec_b64_encode(data@.take(i as int)) + spec_b64_encode(tail));
        }
    } else if n - i == 2 {
        let b0 = data[i];
        let b1 = data[i + 1];
        out.push(b64_byte_enc(b0 / 4));
        out.push(b64_byte_enc((b0 % 4) * 16 + b1 / 16));
        out.push(b64_byte_enc((b1 % 16) * 4));
        proof {
            lemma_encode_split(data@, i as int);
            let tail = data@.skip(i as int);
            assert(tail.len() == 2 && tail[0] == b0 && tail[1] == b1);
            assert(out@ =~= spec_b64_encode(data@.take(i as int)) + spec_b64_encode(tail));
        }
    } else {
        proof {
            lemma_encode_split(data@, i as int);
            let tail = data@.skip(i as int);
            assert(tail.len() == 0);
            assert(out@ =~= spec_b64_encode(data@.take(i as int)) + spec_b64_encode(tail));
        }
    }
    proof {
        assert(data@.take(n as int) =~= data@);
    }
    out
}

/// Encode bytes as URL-safe, unpadded base64 text.
pub fn encode_b64(data: &[u8]) -> (r: String)
    ensures
        r@ == chars_of_bytes(spec_b64_encode(data@)),
        encode_utf8(r@) == spec_b64_encode(data@),
{
    let out = b64_encode_bytes(data);
    proof {
        lemma_ascii_bytes_chars(out@);
    }
    ascii_to_string(out)
}

spec fn decode_rel(full: Seq<u8>, i: int, out: Seq<u8>) -> bool {
    &&& (spec_b64_decode(full) is Some <==> spec_b64_decode(full.skip(i)) is Some)
    &&& (spec_b64_decode(full.skip(i)) matches Some(rest) ==> spec_b64_decode(full) == Some(
        out + rest,
    ))
}

/// Decode URL-safe alphabet bytes back into the bytes they encode.
fn b64_decode_bytes(bytes: &[u8]) -> (r: Result<Vec<u8>, CryptoError>)
    ensures
        match r {
            Ok(v) => spec_b64_decode(bytes@) == Some(v@),
            Err(e) => spec_b64_decode(bytes@) is None && e == CryptoError::EncodingError,
        },
{
    let n = bytes.len();
    let mut out: Vec<u8> = Vec::new();
    let mut i: usize = 0;
    proof {
        assert(bytes@.skip(0) =~= bytes@);
    }
    while n - i >= 4
        invariant
            i % 4 == 0,
            i <= n,
            n == bytes@.len(),
            decode_rel(bytes@, i as int, out@),
        decreases n - i,
    {
        let ghost prev = out@;
        let ghost tail = bytes@.skip(i as int);
        let w0 = b64_byte_dec(bytes[i]);
        let w1 = b64_byte_dec(bytes[i + 1]);
        let w2 = b64_byte_dec(bytes[i + 2]);
        let w3 = b64_byte_dec(bytes[i + 3]);
        proof {
            assert(tail.len() >= 4);
            assert(tail[0] == bytes@[i as int] && tail[1] == bytes@[i + 1] && tail[2] == bytes@[i
                + 2] && tail[3] == bytes@[i + 3]);
        }
        if let (Some(v0), Some(v1), Some(v2), Some(v3)) = (w0, w1, w2, w3) {
            out.push(v0 * 4 + v1 / 16);
            out.push((v1 % 16) * 16 + v2 / 4);
            out.push((v2 % 4) * 64 + v3);
            proof {
                let g = decode_group(tail[0], tail[1], tail[2], tail[3]);
                assert(out@ =~= prev + g);
                assert(tail.skip(4) =~= bytes@.skip(i + 4));
                let rest_opt = spec_b64_decode(bytes@.skip(i + 4));
                assert(spec_b64_decode(tail) == (match rest_opt {
                    Some(rest) => Some(g + rest),
                    None => None::<Seq<u8>>,
                }));
                if rest_opt is Some {
                    let rest = rest_opt->Some_0;
                    assert(prev + (g + rest) =~= (prev + g) + rest);
                }
            }
        } else {
            proof {
                assert(spec_b64_decode(tail) is None);
            }
            return Err(CryptoError::EncodingError);
        }
        i = i + 4;
    }
    let rem = n - i;
    let ghost prev = out@;
    let ghost tail = bytes@.skip(i as int);
    proof {
        assert(tail.len() == n - i);
    }
    if rem == 0 {
        proof {
            assert(spec_b64_decode(tail) == Some(Seq::<u8>::empty()));
            assert(prev + Seq::<u8>::empty() =~= prev);
        }
        Ok(out)
    } else if rem == 1 {
        Err(CryptoError::EncodingError)
    } else if rem == 2 {
        let w0 = b64_byte_dec(bytes[i]);
        let w1 = b64_byte_dec(bytes[i + 1]);
        proof {
            assert(tail[0] == bytes@[i as int] && tail[1] == bytes@[i + 1]);
        }
        if let (Some(v0), Some(v1)) = (w0, w1) {
            if v1 % 16 == 0 {
                out.push(v0 * 4 + v1 / 16);
                proof {
                    let d = seq![(b64_val(tail[0]) * 4 + b64_val(tail[1]) / 16) as u8];
                    assert(spec_b64_decode(tail) == Some(d));
                    assert(out@ =~= prev + d);
                }
                Ok(out)
            } else {
                Err(CryptoError::EncodingError)
            }
        } else {
            Err(CryptoError::EncodingError)
        }
    } else {
        let w0 = b64_byte_dec(bytes[i]);
        let w1 = b64_byte_dec(bytes[i + 1]);
        let w2 = b64_byte_dec(bytes[i + 2]);
        proof {
            assert(rem == 3);
            assert(tail[0] == bytes@[i as int] && tail[1] == bytes@[i + 1] && tail[2] == bytes@[i
                + 2]);
        }
        if let (Some(v0), Some(v1), Some(v2)) = (w0, w1, w2) {
            if v2 % 4 == 0 {
                out.push(v0 * 4 + v1 / 16);
                out.push((v1 % 16) * 16 + v2 / 4);
                proof {
                    let d = seq![
                        (b64_val(tail[0]) * 4 + b64_val(tail[1]) / 16) as u8,
                        ((b64_val(tail[1]) % 16) * 16 + b64_val(tail[2]) / 4) as u8,
                    ];
                    assert(spec_b64_decode(tail) == Some(d));
                    assert(out@ =~= prev + d);
                }
                Ok(out)
            } else {
                Err(CryptoError::EncodingError)
            }
        } else {
            Err(CryptoError::EncodingError)
        }
    }
}

/// Decode URL-safe, unpadded base64 text back into bytes.
pub fn decode_b64(s: &str) -> (r: Result<Vec<u8>, CryptoError>)
    ensures
        match r {
            Ok(v) => spec_b64_decode(encode_utf8(s@)) == Some(v@),
            Err(e) => spec_b64_decode(encode_utf8(s@)) is None && e == CryptoError::EncodingError,
        },
{
    b64_decode_bytes(s.as_bytes())
}


// ---------------------------------------------------------------------------
// The standard, padded flavour
//
// The standard alphabet differs from the URL-safe one only in the bytes for
// the values 62 and 63, and standard text carries `=` padding to a multiple
// of four.
// ---------------------------------------------------------------------------
/// Translate one URL-safe alphabet byte into the standard alphabet.
pub open spec fn url_byte_to_std(b: u8) -> u8 {
    if b == 45 {
        43u8  // '-' becomes '+'
    } else if b == 95 {
        47u8  // '_' becomes '/'
    } else {
        b
    }
}

/// Translate one standard alphabet byte into the URL-safe alphabet. The
/// URL-safe-only bytes are mapped onto the padding byte, which no decoder
/// accepts inside a group.
pub open spec fn std_byte_to_url(b: u8) -> u8 {
    if b == 43 {
        45u8  // '+' becomes '-'
    } else if b == 47 {
        95u8  // '/' becomes '_'
    } else if b == 45 || b == 95 {
        61u8
    } else {
        b
    }
}

/// The `=` padding that standard base64 appends for an input of `n` bytes.
pub open spec fn spec_b64_pad(n: int) -> Seq<u8> {
    if n % 3 == 1 {
        seq![61u8, 61u8]
    } else if n % 3 == 2 {
        seq![61u8]
    } else {
        Seq::<u8>::empty()
    }
}

/// Standard, padded base64: the encoded bytes of an input byte sequence.
pub open spec fn spec_b64_encode_std(s: Seq<u8>) -> Seq<u8> {
    spec_b64_encode(s).map_values(|b: u8| url_byte_to_std(b)) + spec_b64_pad(s.len() as int)
}

/// How many `=` bytes end the text, capped at three; three or more is
/// never well-formed.
pub open spec fn std_pad_count(s: Seq<u8>) -> int {
    if s.len() >= 1 && s[s.len() - 1] == 61 {
        if s.len() >= 2 && s[s.len() - 2] == 61 {
            if s.len() >= 3 && s[s.len() - 3] == 61 {
                3
            } else {
                2
            }
        } else {
            1
        }
    } else {
        0
    }
}

/// Standard, padded base64 decoding: the length must be a multiple of four,
/// at most two `=` bytes may close the text, and the rest must decode as
/// base64 over the standard alphabet.
pub open spec fn spec_b64_decode_std(s: Seq<u8>) -> Option<Seq<u8>> {
    if s.len() % 4 != 0 {
        None
    } else {
        let p = std_pad_count(s);
        if p >= 3 {
            None
        } else {
            spec_b64_decode(s.take(s.len() - p).map_values(|b: u8| std_byte_to_url(b)))
        }
    }
}

fn url_to_std_byte(b: u8) -> (r: u8)
    ensures
        r == url_byte_to_std(b),
{
    if b == 45 {
        43
    } else if b == 95 {
        47
    } else {
        b
    }
}

fn std_to_url_byte(b: u8) -> (r: u8)
    ensures
        r == std_byte_to_url(b),
{
    if b == 43 {
        45
    } else if b == 47 {
        95
    } else if b == 45 || b == 95 {
        61
    } else {
        b
    }
}

/// Encode bytes as standard, padded base64 text.
pub fn encode_b64_standard(data: &[u8]) -> (r: String)
    ensures
        r@ == chars_of_bytes(spec_b64_encode_std(data@)),
        encode_utf8(r@) == spec_b64_encode_std(data@),
{
    let u = b64_encode_bytes(data);
    let n = u.len();
    let mut out: Vec<u8> = Vec::new();
    let mut i: usize = 0;
    while i < n
        invariant
            i <= n,
            n == u@.len(),
            out@ == u@.map_values(|b: u8| url_byte_to_std(b)).take(i as int),
        decreases n - i,
    {
        out.push(url_to_std_byte(u[i]));
        proof {
            assert(out@ =~= u@.map_values(|b: u8| url_byte_to_std(b)).take(i + 1));
        }
        i = i + 1;
    }
    proof {
        assert(out@ =~= u@.map_values(|b: u8| url_byte_to_std(b)));
    }
    let rem = data.len() % 3;
    if rem == 1 {
        out.push(61);
        out.push(61);
    } else if rem == 2 {
        out.push(61);
    }
    proof {
        assert(out@ =~= spec_b64_encode_std(data@));
        assert forall|j: int| 0 <= j < out@.len() implies out@[j] < 128 by {
            if j < spec_b64_encode(data@).len() {
                assert(out@[j] == url_byte_to_std(spec_b64_encode(data@)[j]));
            } else {
                assert(out@[j] == 61);
            }
        }
        lemma_ascii_bytes_chars(out@);
    }
    ascii_to_string(out)
}

/// Decode standard, padded base64 text back into bytes.
pub fn decode_b64_standard(s: &str) -> (r: Result<Vec<u8>, CryptoError>)
    ensures
        match r {
            Ok(v) => spec_b64_decode_std(encode_utf8(s@)) == Some(v@),
            Err(e) => spec_b64_decode_std(encode_utf8(s@)) is None && e
                == CryptoError::EncodingError,
        },
{
    let bytes: &[u8] = s.as_bytes();
    let n = bytes.len();
    if n % 4 != 0 {
        return Err(CryptoError::EncodingError);
    }
    let mut p: usize = 0;
    if n >= 1 && bytes[n - 1] == 61 {
        p = 1;
        if n >= 2 && bytes[n - 2] == 61 {
            p = 2;
            if n >= 3 && bytes[n - 3] == 61 {
                return Err(CryptoError::EncodingError);
            }
        }
    }
    proof {
        assert(p as int == std_pad_count(bytes@));
    }
    let m = n - p;
    let mut body: Vec<u8> = Vec::new();
    let mut i: usize = 0;
    while i < m
        invariant
            i <= m,
            m <= n,
            n == bytes@.len(),
            body@ == bytes@.take(m as int).map_values(|b: u8| std_byte_to_url(b)).take(i as int),
        decreases m - i,
    {
        proof {
            assert(bytes@.take(m as int)[i as int] == bytes@[i as int]);
        }
        body.push(std_to_url_byte(bytes[i]));
        proof {
            assert(body@ =~= bytes@.take(m as int).map_values(|b: u8| std_byte_to_url(b)).take(
                i + 1,
            ));
        }
        i = i + 1;
    }
    proof {
        assert(body@ =~= bytes@.take(m as int).map_values(|b: u8| std_byte_to_url(b)));
    }
    b64_decode_bytes(body.as_slice())
}

/// The encoded length: four bytes per whole input group, plus two or three
/// for a trailing one or two bytes.
pub proof fn lemma_encode_len(s: Seq<u8>)
    ensures
        spec_b64_encode(s).len() == 4 * (s.len() as int / 3) + (if s.len() as int % 3 == 0 {
            0int
        } else {
            s.len() as int % 3 + 1
        }),
    decreases s.len(),
{
    if s.len() >= 3 {
        lemma_encode_len(s.skip(3));
        let n = s.len() as int;
        assert((n - 3) / 3 == n / 3 - 1 && (n - 3) % 3 == n % 3) by (nonlinear_arith)
            requires
                n >= 3,
        ;
    }
}

/// Decoding undoes encoding for the standard flavour too.
pub proof fn lemma_b64_std_round_trip(s: Seq<u8>)
    ensures
        spec_b64_decode_std(spec_b64_encode_std(s)) == Some(s),
{
    let enc = spec_b64_encode(s);
    let mapped = enc.map_values(|b: u8| url_byte_to_std(b));
    let e = spec_b64_encode_std(s);
    lemma_encode_bytes_valid(s);
    lemma_encode_len(s);
    let n = s.len() as int;
    assert(n % 3 == 0 || n % 3 == 1 || n % 3 == 2) by (nonlinear_arith);
    assert(e.len() % 4 == 0) by (nonlinear_arith)
        requires
            e.len() == 4 * (n / 3) + (if n % 3 == 0 {
                0int
            } else {
                n % 3 + 1
            }) + spec_b64_pad(n).len(),
            (n % 3 == 0 ==> spec_b64_pad(n).len() == 0) && (n % 3 == 1 ==> spec_b64_pad(n).len()
                == 2) && (n % 3 == 2 ==> spec_b64_pad(n).len() == 1),
    ;
    // no mapped alphabet byte is the padding byte
    assert forall|j: int| 0 <= j < mapped.len() implies mapped[j] != 61 by {
        assert(is_b64_byte(enc[j]));
        assert(mapped[j] == url_byte_to_std(enc[j]));
    }
    assert(std_pad_count(e) == spec_b64_pad(n).len());
    assert(e.take(e.len() - spec_b64_pad(n).len()) =~= mapped);
    // translating back restores the URL-safe bytes
    assert(mapped.map_values(|b: u8| std_byte_to_url(b)) =~= enc) by {
        assert forall|j: int| 0 <= j < enc.len() implies std_byte_to_url(url_byte_to_std(enc[j]))
            == enc[j] by {
            assert(is_b64_byte(enc[j]));
        }
    }
    lemma_b64_round_trip(s);
}

/// Parse the textual name of a base64 flavour.
pub fn parse_base64_format(format: &str) -> (r: Result<Base64Format, CryptoError>)
    ensures
        format@ == "standard"@ ==> r == Ok::<Base64Format, CryptoError>(Base64Format::Standard),
        format@ == "urlsafe"@ ==> r == Ok::<Base64Format, CryptoError>(Base64Format::UrlSafe),
        format@ != "standard"@ && format@ != "urlsafe"@ ==> r == Err::<
            Base64Format,
            CryptoError,
        >(CryptoError::EncodingError),
{
    proof {
        reveal_strlit("standard");
        reveal_strlit("urlsafe");
        assert("standard"@.len() == 8);
        assert("urlsafe"@.len() == 7);
    }
    let f = format.to_owned();
    if f == String::from_str("standard") {
        Ok(Base64Format::Standard)
    } else if f == String::from_str("urlsafe") {
        Ok(Base64Format::UrlSafe)
    } else {
        Err(CryptoError::EncodingError)
    }
}

} // verus!
