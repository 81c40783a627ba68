//! Building text: numbers in decimal, and one string after another.
//!
//! The two functions that make strings call `format!`; their contracts say
//! what it writes and are believed, not proved.

use vstd::prelude::*;
use vstd::string::StringSliceAdditionalSpecFns;

verus! {

/// The character for a single decimal digit.
pub open spec fn digit_char(d: nat) -> char {
    if d == 0 {
        '0'
    } else if d == 1 {
        '1'
    } else if d == 2 {
        '2'
    } else if d == 3 {
        '3'
    } else if d == 4 {
        '4'
    } else if d == 5 {
        '5'
    } else if d == 6 {
        '6'
    } else if d == 7 {
        '7'
    } else if d == 8 {
        '8'
    } else {
        '9'
    }
}

/// A number in decimal notation, without leading zeros.
pub open spec fn decimal_text(n: nat) -> Seq<char>
    decreases n,
{
    if n < 10 {
        seq![digit_char(n)]
    } else {
        decimal_text(n / 10).push(digit_char(n % 10))
    }
}

/// Calls `format!` with `{}` on an unsigned integer. The contract claims what
/// std's `Display` for integers does: it writes the number in decimal, with
/// no sign, padding or leading zeros.
#[verifier::external_body]
pub(crate) fn decimal(n: u128) -> (s: String)
    ensures
        s@ == decimal_text(n as nat),
{
    format!("{}", n)
}

/// Calls `format!` with `{}{}` on two strings. The contract claims that the
/// result is the first followed by the second.
#[verifier::external_body]
pub(crate) fn joined(a: &str, b: &str) -> (s: String)
    ensures
        s@ == a@ + b@,
{
    format!("{}{}", a, b)
}

/// The number that a run of decimal digits stands for, the empty run for 0;
/// `None` if a byte is no digit.
pub open spec fn digits_value(bytes: Seq<u8>) -> Option<nat>
    decreases bytes.len(),
{
    if bytes.len() == 0 {
        Some(0)
    } else {
        match digits_value(bytes.drop_last()) {
            Some(v) => if 48 <= bytes.last() <= 57 {
                Some(v * 10 + (bytes.last() - 48) as nat)
            } else {
                None
            },
            None => None,
        }
    }
}

/// The number that a text in decimal notation stands for: an optional plus
/// sign, then digits, at least one, and nothing else; `None` for any other
/// text, and for a number that does not fit.
pub open spec fn parsed_usize(bytes: Seq<u8>) -> Option<usize> {
    let digits = if bytes.len() > 0 && bytes[0] == 43 {
        bytes.skip(1)
    } else {
        bytes
    };
    if digits.len() == 0 {
        None
    } else {
        match digits_value(digits) {
            Some(v) => if v <= usize::MAX {
                Some(v as usize)
            } else {
                None
            },
            None => None,
        }
    }
}

/// A run of digits stands for at least as much as each of its beginnings,
/// and where a beginning is no run of digits, the whole is none.
proof fn lemma_digits_grow(bytes: Seq<u8>, n: int)
    requires
        0 <= n <= bytes.len(),
    ensures
        digits_value(bytes.take(n)).is_none() ==> digits_value(bytes).is_none(),
        digits_value(bytes).is_some() ==> digits_value(bytes.take(n)).unwrap() <= digits_value(
            bytes,
        ).unwrap(),
    decreases bytes.len() - n,
{
    if n == bytes.len() {
        assert(bytes.take(n) =~= bytes);
    } else {
        lemma_digits_grow(bytes, n + 1);
        assert(bytes.take(n + 1).drop_last() =~= bytes.take(n));
    }
}

/// Reads a number in decimal notation.
pub fn parse_usize(line: &str) -> (r: Option<usize>)
    ensures
        r == parsed_usize(line.spec_bytes()),
{
    let bytes = line.as_bytes();
    let n: usize = bytes.len();
    let start: usize = if n > 0 && bytes[0] == 43 {
        1
    } else {
        0
    };
    if start == n {
        return None;
    }
    let ghost digits = bytes@.skip(start as int);
    let mut value: usize = 0;
    let mut i: usize = start;
    proof {
        assert(digits.take(0) =~= Seq::<u8>::empty());
        assert(bytes@.skip(0) =~= bytes@);
        assert(parsed_usize(bytes@) == (match digits_value(digits) {
            Some(v) => if v <= usize::MAX {
                Some(v as usize)
            } else {
                None
            },
            None => None,
        }));
    }
    while i < n
        invariant
            n == bytes@.len(),
            start <= i <= n,
            bytes@ == line.spec_bytes(),
            digits == bytes@.skip(start as int),
            parsed_usize(bytes@) == (match digits_value(digits) {
                Some(v) => if v <= usize::MAX {
                    Some(v as usize)
                } else {
                    None
                },
                None => None,
            }),
            digits_value(digits.take(i - start)) == Some(value as nat),
        decreases n - i,
    {
        let b: u8 = bytes[i];
        proof {
            assert(digits.take(i - start + 1).drop_last() =~= digits.take(i - start));
            assert(digits.take(i - start + 1).last() == b);
            lemma_digits_grow(digits, i - start + 1);
        }
        if b < 48 || b > 57 {
            return None;
        }
        let d: usize = (b - 48) as usize;
        if value > (usize::MAX - d) / 10 {
            return None;
        }
        value = value * 10 + d;
        i += 1;
    }
    proof {
        assert(digits.take(n - start) =~= digits);
    }
    Some(value)
}

} // verus!
