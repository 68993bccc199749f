use vstd::prelude::*;

verus! {

use vstd::utf8::is_ascii_chars;
use crate::b64::lemma_ascii_bytes_chars;
use crate::backends::{ascii_to_string, random_bytes, shuffle_bytes};
use crate::errors::CryptoError;

/// An upper-case letter.
pub open spec fn is_upper_byte(b: u8) -> bool {
    65 <= b <= 90
}

/// A lower-case letter.
pub open spec fn is_lower_byte(b: u8) -> bool {
    97 <= b <= 122
}

/// A decimal digit.
pub open spec fn is_digit_byte(b: u8) -> bool {
    48 <= b <= 57
}

/// One of the password symbols: ! # $ % & * @ ^ _
pub open spec fn is_symbol_byte(b: u8) -> bool {
    b == 33 || b == 35 || b == 36 || b == 37 || b == 38 || b == 42 || b == 64 || b == 94 || b == 95
}

/// Membership in the union of the classes that are switched on.
pub open spec fn in_enabled_classes(
    b: u8,
    upper: bool,
    lower: bool,
    number: bool,
    symbol: bool,
) -> bool {
    ||| (upper && is_upper_byte(b))
    ||| (lower && is_lower_byte(b))
    ||| (number && is_digit_byte(b))
    ||| (symbol && is_symbol_byte(b))
}

/// How many character classes are switched on.
pub open spec fn class_count(upper: bool, lower: bool, number: bool, symbol: bool) -> int {
    (if upper {
        1int
    } else {
        0int
    }) + (if lower {
        1int
    } else {
        0int
    }) + (if number {
        1int
    } else {
        0int
    }) + (if symbol {
        1int
    } else {
        0int
    })
}

fn symbol_byte(x: u8) -> (r: u8)
    requires
        x < 9,
    ensures
        is_symbol_byte(r),
{
    match x {
        0 => 33,
        1 => 35,
        2 => 36,
        3 => 37,
        4 => 38,
        5 => 42,
        6 => 64,
        7 => 94,
        _ => 95,
    }
}

/// Everything the generator promises of a produced password: the requested
/// length, ASCII text drawn from the selected classes, and, when the length
/// leaves room for it, at least one character of every selected class.
pub open spec fn genpass_ok(
    s: Seq<char>,
    length: int,
    upper: bool,
    lower: bool,
    number: bool,
    symbol: bool,
) -> bool {
    &&& s.len() == length
    &&& is_ascii_chars(s)
    &&& forall|i: int|
        0 <= i < s.len() ==> in_enabled_classes((#[trigger] s[i]) as u8, upper, lower, number, symbol)
    &&& upper && length >= class_count(upper, lower, number, symbol) ==> exists|i: int|
        0 <= i < s.len() && is_upper_byte((#[trigger] s[i]) as u8)
    &&& lower && length >= class_count(upper, lower, number, symbol) ==> exists|i: int|
        0 <= i < s.len() && is_lower_byte((#[trigger] s[i]) as u8)
    &&& number && length >= class_count(upper, lower, number, symbol) ==> exists|i: int|
        0 <= i < s.len() && is_digit_byte((#[trigger] s[i]) as u8)
    &&& symbol && length >= class_count(upper, lower, number, symbol) ==> exists|i: int|
        0 <= i < s.len() && is_symbol_byte((#[trigger] s[i]) as u8)
}

/// Generate a random password of the requested length from the selected
/// character classes. When the length leaves room for it, at least one
/// character of every selected class is present; the characters are then
/// randomly shuffled. Fails only when no class is selected.
#[verifier::rlimit(60)]
pub fn process_genpass(length: usize, upper: bool, lower: bool, number: bool, symbol: bool) -> (r:
    Result<String, CryptoError>)
    ensures
        match r {
            Ok(s) => genpass_ok(s@, length as int, upper, lower, number, symbol),
            Err(e) => e == CryptoError::UnsupportedOperation && !upper && !lower && !number
                && !symbol,
        },
{
    if !upper && !lower && !number && !symbol {
        return Err(CryptoError::UnsupportedOperation);
    }
    let rnd = random_bytes(length);

    // The pool of candidate bytes, one entry per allowed byte.
    let mut pool: Vec<u8> = Vec::new();
    if upper {
        let ghost base = pool@.len();
        let mut b: u8 = 65;
        while b <= 90
            invariant
                65 <= b <= 91,
                pool@.len() == base + (b - 65),
                forall|j: int|
                    0 <= j < pool@.len() ==> in_enabled_classes(
                        #[trigger] pool@[j],
                        upper,
                        lower,
                        number,
                        symbol,
                    ),
                upper,
            decreases 91 - b,
        {
            pool.push(b);
            b = b + 1;
        }
    }
    if lower {
        let ghost base = pool@.len();
        let mut b: u8 = 97;
        while b <= 122
            invariant
                97 <= b <= 123,
                pool@.len() == base + (b - 97),
                forall|j: int|
                    0 <= j < pool@.len() ==> in_enabled_classes(
                        #[trigger] pool@[j],
                        upper,
                        lower,
                        number,
                        symbol,
                    ),
                lower,
            decreases 123 - b,
        {
            pool.push(b);
            b = b + 1;
        }
    }
    if number {
        let ghost base = pool@.len();
        let mut b: u8 = 48;
        while b <= 57
            invariant
                48 <= b <= 58,
                pool@.len() == base + (b - 48),
                forall|j: int|
                    0 <= j < pool@.len() ==> in_enabled_classes(
                        #[trigger] pool@[j],
                        upper,
                        lower,
                        number,
                        symbol,
                    ),
                number,
            decreases 58 - b,
        {
            pool.push(b);
            b = b + 1;
        }
    }
    if symbol {
        let mut x: u8 = 0;
        while x < 9
            invariant
                x <= 9,
                pool@.len() >= x,
                forall|j: int|
                    0 <= j < pool@.len() ==> in_enabled_classes(
                        #[trigger] pool@[j],
                        upper,
                        lower,
                        number,
                        symbol,
                    ),
                symbol,
            decreases 9 - x,
        {
            let s = symbol_byte(x);
            pool.push(s);
            x = x + 1;
        }
    }
    assert(pool@.len() > 0);

    // One representative of each selected class first, while there is room.
    let ghost cc = class_count(upper, lower, number, symbol);
    let mut pw: Vec<u8> = Vec::new();
    let ghost mut iu: int = 0;
    let ghost mut il: int = 0;
    let ghost mut inum: int = 0;
    let ghost mut isym: int = 0;
    if upper && pw.len() < length {
        proof {
            iu = pw@.len() as int;
        }
        let b = rnd[pw.len()];
        pw.push(65 + b % 26);
    }
    if lower && pw.len() < length {
        proof {
            il = pw@.len() as int;
        }
        let b = rnd[pw.len()];
        pw.push(97 + b % 26);
    }
    if number && pw.len() < length {
        proof {
            inum = pw@.len() as int;
        }
        let b = rnd[pw.len()];
        pw.push(48 + b % 10);
    }
    if symbol && pw.len() < length {
        proof {
            isym = pw@.len() as int;
        }
        let b = rnd[pw.len()];
        let s = symbol_byte(b % 9);
        pw.push(s);
    }

    // Fill the rest from the pool.
    while pw.len() < length
        invariant
            pw@.len() <= length,
            rnd@.len() == length,
            pool@.len() > 0,
            forall|j: int|
                0 <= j < pool@.len() ==> in_enabled_classes(
                    #[trigger] pool@[j],
                    upper,
                    lower,
                    number,
                    symbol,
                ),
            forall|j: int|
                0 <= j < pw@.len() ==> in_enabled_classes(
                    #[trigger] pw@[j],
                    upper,
                    lower,
                    number,
                    symbol,
                ),
            upper && length >= cc ==> 0 <= iu < pw@.len() && is_upper_byte(pw@[iu]),
            lower && length >= cc ==> 0 <= il < pw@.len() && is_lower_byte(pw@[il]),
            number && length >= cc ==> 0 <= inum < pw@.len() && is_digit_byte(pw@[inum]),
            symbol && length >= cc ==> 0 <= isym < pw@.len() && is_symbol_byte(pw@[isym]),
            cc == class_count(upper, lower, number, symbol),
        decreases length - pw@.len(),
    {
        let b = rnd[pw.len()];
        let idx = (b as usize) % pool.len();
        pw.push(pool[idx]);
    }

    // Shuffle; the contents are preserved as a multiset.
    let ghost before = pw@;
    shuffle_bytes(&mut pw);
    proof {
        broadcast use vstd::seq_lib::group_to_multiset_ensures;

        assert forall|j: int| 0 <= j < pw@.len() implies in_enabled_classes(
            #[trigger] pw@[j],
            upper,
            lower,
            number,
            symbol,
        ) by {
            let v = pw@[j];
            assert(pw@.contains(v));
            assert(before.to_multiset().count(v) > 0);
            assert(before.contains(v));
            let k = choose|k: int| 0 <= k < before.len() && before[k] == v;
            assert(in_enabled_classes(before[k], upper, lower, number, symbol));
        }
        if upper && length >= cc {
            let vu = before[iu];
            assert(before.contains(vu));
            assert(pw@.to_multiset().count(vu) > 0);
            assert(pw@.contains(vu));
            let k = choose|k: int| 0 <= k < pw@.len() && pw@[k] == vu;
            assert(is_upper_byte(pw@[k]));
        }
        if lower && length >= cc {
            let vl = before[il];
            assert(before.contains(vl));
            assert(pw@.to_multiset().count(vl) > 0);
            assert(pw@.contains(vl));
            let k = choose|k: int| 0 <= k < pw@.len() && pw@[k] == vl;
            assert(is_lower_byte(pw@[k]));
        }
        if number && length >= cc {
            let vn = before[inum];
            assert(before.contains(vn));
            assert(pw@.to_multiset().count(vn) > 0);
            assert(pw@.contains(vn));
            let k = choose|k: int| 0 <= k < pw@.len() && pw@[k] == vn;
            assert(is_digit_byte(pw@[k]));
        }
        if symbol && length >= cc {
            let vs = before[isym];
            assert(before.contains(vs));
            assert(pw@.to_multiset().count(vs) > 0);
            assert(pw@.contains(vs));
            let k = choose|k: int| 0 <= k < pw@.len() && pw@[k] == vs;
            assert(is_symbol_byte(pw@[k]));
        }
    }

    proof {
        assert forall|i: int| 0 <= i < pw@.len() implies pw@[i] < 128 by {
            assert(in_enabled_classes(pw@[i], upper, lower, number, symbol));
        }
        lemma_ascii_bytes_chars(pw@);
    }
    let ghost bytes = pw@;
    let s = ascii_to_string(pw);
    proof {
        assert forall|i: int| 0 <= i < s@.len() implies in_enabled_classes(
            (#[trigger] s@[i]) as u8,
            upper,
            lower,
            number,
            symbol,
        ) by {
            assert(s@[i] == bytes[i] as char);
        }
        if upper && length >= cc {
            let k = choose|k: int| 0 <= k < bytes.len() && is_upper_byte(bytes[k]);
            assert(s@[k] == bytes[k] as char);
            assert(is_upper_byte(s@[k] as u8));
        }
        if lower && length >= cc {
            let k = choose|k: int| 0 <= k < bytes.len() && is_lower_byte(bytes[k]);
            assert(s@[k] == bytes[k] as char);
            assert(is_lower_byte(s@[k] as u8));
        }
        if number && length >= cc {
            let k = choose|k: int| 0 <= k < bytes.len() && is_digit_byte(bytes[k]);
            assert(s@[k] == bytes[k] as char);
            assert(is_digit_byte(s@[k] as u8));
        }
        if symbol && length >= cc {
            let k = choose|k: int| 0 <= k < bytes.len() && is_symbol_byte(bytes[k]);
            assert(s@[k] == bytes[k] as char);
            assert(is_symbol_byte(s@[k] as u8));
        }
        assert(genpass_ok(s@, length as int, upper, lower, number, symbol));
    }
    Ok(s)
}

} // verus!
