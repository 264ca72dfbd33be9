//! Reading integers out of header values.
//!
//! The grammar is that of `str::parse` for the integer types: an optional
//! sign, then one or more decimal digits, and nothing else. A value that does
//! not fit the type does not parse.
use vstd::prelude::*;
use vstd::string::*;

verus! {

/// Whether a byte is an ASCII decimal digit.
pub open spec fn is_digit(b: u8) -> bool {
    48 <= b <= 57
}

/// Whether every byte is a decimal digit.
pub open spec fn all_digits(bytes: Seq<u8>) -> bool {
    forall|i: int| 0 <= i < bytes.len() ==> is_digit(#[trigger] bytes[i])
}

/// The number that a string of decimal digits denotes.
pub open spec fn digits_value(bytes: Seq<u8>) -> nat
    decreases bytes.len(),
{
    if bytes.len() == 0 {
        0
    } else {
        (10 * digits_value(bytes.drop_last()) + (bytes.last() - 48)) as nat
    }
}

/// The magnitude that `bytes` denotes, if they are one or more digits that
/// denote at most `limit`.
pub open spec fn magnitude(bytes: Seq<u8>, limit: nat) -> Option<nat> {
    if bytes.len() > 0 && all_digits(bytes) && digits_value(bytes) <= limit {
        Some(digits_value(bytes))
    } else {
        None
    }
}

/// What a header value denotes as a signed 64-bit integer.
pub open spec fn signed_value(bytes: Seq<u8>) -> Option<i64> {
    if bytes.len() > 0 && bytes[0] == 45 {
        match magnitude(bytes.skip(1), 0x8000_0000_0000_0000) {
            Some(m) => Some((-m) as i64),
            None => None,
        }
    } else if bytes.len() > 0 && bytes[0] == 43 {
        match magnitude(bytes.skip(1), i64::MAX as nat) {
            Some(m) => Some(m as i64),
            None => None,
        }
    } else {
        match magnitude(bytes, i64::MAX as nat) {
            Some(m) => Some(m as i64),
            None => None,
        }
    }
}

/// What a header value denotes as an unsigned count.
pub open spec fn unsigned_value(bytes: Seq<u8>) -> Option<usize> {
    if bytes.len() > 0 && bytes[0] == 43 {
        match magnitude(bytes.skip(1), usize::MAX as nat) {
            Some(m) => Some(m as usize),
            None => None,
        }
    } else {
        match magnitude(bytes, usize::MAX as nat) {
            Some(m) => Some(m as usize),
            None => None,
        }
    }
}

/// A prefix of a string of digits denotes no more than the whole string.
pub proof fn lemma_prefix_value(bytes: Seq<u8>, i: int)
    requires
        all_digits(bytes),
        0 <= i <= bytes.len(),
    ensures
        digits_value(bytes.take(i)) <= digits_value(bytes),
    decreases bytes.len() - i,
{
    if i == bytes.len() {
        assert(bytes.take(i) =~= bytes);
    } else {
        lemma_prefix_value(bytes, i + 1);
        let longer = bytes.take(i + 1);
        assert(longer.drop_last() =~= bytes.take(i));
        assert(is_digit(bytes[i]));
        assert(longer.last() == bytes[i]);
    }
}

/// Reads the digits of `bytes` from `start` on.
fn parse_magnitude(bytes: &[u8], start: usize, limit: u64) -> (r: Option<u64>)
    requires
        start <= bytes@.len(),
    ensures
        match magnitude(bytes@.skip(start as int), limit as nat) {
            Some(m) => r == Some(m as u64),
            None => r is None,
        },
{
    let ghost digits = bytes@.skip(start as int);
    let n = bytes.len();
    if start == n {
        return None;
    }
    let mut acc: u64 = 0;
    let mut i: usize = start;
    while i < n
        invariant
            n == bytes@.len(),
            digits == bytes@.skip(start as int),
            start <= i <= n,
            all_digits(digits.take(i - start)),
            acc == digits_value(digits.take(i - start)),
            acc <= limit,
        decreases n - i,
    {
        let b = bytes[i];
        let ghost upto = digits.take(i - start + 1);
        proof {
            assert(upto.drop_last() =~= digits.take(i - start));
            assert(upto.last() == b);
        }
        if b < 48 || b > 57 {
            assert(!is_digit(digits[i - start]));
            return None;
        }
        let d: u64 = (b - 48) as u64;
        if d > limit || acc > (limit - d) / 10 {
            proof {
                assert(all_digits(digits) ==> digits_value(digits) > limit) by {
                    if all_digits(digits) {
                        lemma_prefix_value(digits, i - start + 1);
                    }
                }
            }
            return None;
        }
        acc = acc * 10 + d;
        proof {
            assert forall|j: int| 0 <= j < upto.len() implies is_digit(#[trigger] upto[j]) by {
                if j < upto.len() - 1 {
                    assert(upto[j] == digits.take(i - start)[j]);
                }
            }
        }
        i += 1;
    }
    assert(digits.take(n - start) =~= digits);
    Some(acc)
}

/// Reads a signed 64-bit integer: an optional `+` or `-`, then digits.
pub fn parse_i64(text: &str) -> (r: Option<i64>)
    ensures
        r == signed_value(text.spec_bytes()),
{
    let bytes = text.as_bytes();
    assert(bytes@.skip(0) =~= bytes@);
    if bytes.len() > 0 && bytes[0] == 45 {
        match parse_magnitude(bytes, 1, 0x8000_0000_0000_0000) {
            Some(m) => {
                if m == 0x8000_0000_0000_0000 {
                    assert((-(m as nat)) as i64 == i64::MIN);
                    Some(i64::MIN)
                } else {
                    assert((-(m as nat)) as i64 == -(m as i64));
                    Some(-(m as i64))
                }
            },
            None => None,
        }
    } else if bytes.len() > 0 && bytes[0] == 43 {
        match parse_magnitude(bytes, 1, 0x7fff_ffff_ffff_ffff) {
            Some(m) => Some(m as i64),
            None => None,
        }
    } else {
        match parse_magnitude(bytes, 0, 0x7fff_ffff_ffff_ffff) {
            Some(m) => Some(m as i64),
            None => None,
        }
    }
}

/// Reads an unsigned count: an optional `+`, then digits.
pub fn parse_usize(text: &str) -> (r: Option<usize>)
    ensures
        r == unsigned_value(text.spec_bytes()),
{
    let bytes = text.as_bytes();
    let start: usize = if bytes.len() > 0 && bytes[0] == 43 {
        1
    } else {
        0
    };
    assert(bytes@.skip(0) =~= bytes@);
    match parse_magnitude(bytes, start, usize::MAX as u64) {
        Some(m) => Some(m as usize),
        None => None,
    }
}

} // verus!
