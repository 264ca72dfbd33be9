//! Identifiers of API resources: how they are written into a URL and how
//! they are hashed into a cache key.
use vstd::prelude::*;
use vstd::string::*;
use crate::hashing::{
    hash_pair, hash_str, hash_word, pair_digest, text_digest, word_digest,
};

verus! {

/// The character of one decimal digit.
pub open spec fn digit_char(d: int) -> char {
    if d == 0 {
        '0'
    } else if d == 1 {
        '1'
    } else if d == 2 {
        '2'
    } else if d == 3 {
        '3'
    } else if d == 4 {
        '4'
    } else if d == 5 {
        '5'
    } else if d == 6 {
        '6'
    } else if d == 7 {
        '7'
    } else if d == 8 {
        '8'
    } else {
        '9'
    }
}

/// A number in decimal, without sign or leading zeros.
pub open spec fn decimal(n: nat) -> Seq<char>
    decreases n,
{
    if n < 10 {
        seq![digit_char(n as int)]
    } else {
        decimal(n / 10).push(digit_char((n % 10) as int))
    }
}

fn digit_str(d: u64) -> (s: &'static str)
    requires
        d < 10,
    ensures
        s@ == seq![digit_char(d as int)],
{
    proof {
        reveal_strlit("0");
        reveal_strlit("1");
        reveal_strlit("2");
        reveal_strlit("3");
        reveal_strlit("4");
        reveal_strlit("5");
        reveal_strlit("6");
        reveal_strlit("7");
        reveal_strlit("8");
        reveal_strlit("9");
    }
    let s = if d == 0 {
        "0"
    } else if d == 1 {
        "1"
    } else if d == 2 {
        "2"
    } else if d == 3 {
        "3"
    } else if d == 4 {
        "4"
    } else if d == 5 {
        "5"
    } else if d == 6 {
        "6"
    } else if d == 7 {
        "7"
    } else if d == 8 {
        "8"
    } else {
        "9"
    };
    assert(s@ =~= seq![digit_char(d as int)]);
    s
}

/// Appends `n` in decimal to `out`.
pub fn push_decimal(out: &mut String, n: u64)
    ensures
        final(out)@ == old(out)@ + decimal(n as nat),
    decreases n,
{
    if n >= 10 {
        push_decimal(out, n / 10);
    }
    out.append(digit_str(n % 10));
}

/// Appends `n` in decimal to `out`.
pub fn push_decimal_wide(out: &mut String, n: u128)
    ensures
        final(out)@ == old(out)@ + decimal(n as nat),
    decreases n,
{
    if n >= 10 {
        push_decimal_wide(out, n / 10);
    }
    out.append(digit_str((n % 10) as u64));
}

/// A number in decimal, with a minus sign in front where it is negative.
pub open spec fn signed_decimal(n: int) -> Seq<char> {
    if n < 0 {
        seq!['-'] + decimal((-n) as nat)
    } else {
        decimal(n as nat)
    }
}

/// Appends `n` in decimal to `out`, with a minus sign in front where it is
/// negative.
pub fn push_signed_decimal(out: &mut String, n: i128)
    ensures
        final(out)@ == old(out)@ + signed_decimal(n as int),
{
    if n < 0 {
        proof {
            reveal_strlit("-");
        }
        out.append("-");
        assert("-"@ =~= seq!['-']);
        let magnitude: u128 = if n == i128::MIN {
            0x8000_0000_0000_0000_0000_0000_0000_0000
        } else {
            (-n) as u128
        };
        push_decimal_wide(out, magnitude);
        assert(final(out)@ =~= old(out)@ + signed_decimal(n as int));
    } else {
        push_decimal_wide(out, n as u128);
    }
}

/// An identifier of a resource.
///
/// `text` is what stands for the id in a URL; `digest` is the 64-bit hash
/// under which the id is cached. Equal ids have equal texts and digests.
/// A verified implementation says what `text` and `digest` are and proves
/// `render` and `hash64` against them.
pub trait EndpointId: Sized {
    /// The id as it is written into a URL.
    open spec fn text(&self) -> Seq<char> {
        arbitrary()
    }

    /// The 64-bit hash of the id.
    open spec fn digest(&self) -> u64 {
        arbitrary()
    }

    /// Writes the id out.
    fn render(&self) -> (s: String)
        ensures
            s@ == self.text(),
    ;

    /// Hashes the id.
    fn hash64(&self) -> (h: u64)
        ensures
            h == self.digest(),
    ;
}

impl EndpointId for u64 {
    open spec fn text(&self) -> Seq<char> {
        decimal(*self as nat)
    }

    open spec fn digest(&self) -> u64 {
        word_digest(*self)
    }

    fn render(&self) -> (s: String) {
        let mut s = String::new();
        push_decimal(&mut s, *self);
        s
    }

    fn hash64(&self) -> (h: u64) {
        hash_word(*self)
    }
}

impl EndpointId for u32 {
    open spec fn text(&self) -> Seq<char> {
        decimal(*self as nat)
    }

    open spec fn digest(&self) -> u64 {
        word_digest(*self as u64)
    }

    fn render(&self) -> (s: String) {
        let mut s = String::new();
        push_decimal(&mut s, *self as u64);
        s
    }

    fn hash64(&self) -> (h: u64) {
        hash_word(*self as u64)
    }
}

impl EndpointId for u16 {
    open spec fn text(&self) -> Seq<char> {
        decimal(*self as nat)
    }

    open spec fn digest(&self) -> u64 {
        word_digest(*self as u64)
    }

    fn render(&self) -> (s: String) {
        let mut s = String::new();
        push_decimal(&mut s, *self as u64);
        s
    }

    fn hash64(&self) -> (h: u64) {
        hash_word(*self as u64)
    }
}

impl EndpointId for u8 {
    open spec fn text(&self) -> Seq<char> {
        decimal(*self as nat)
    }

    open spec fn digest(&self) -> u64 {
        word_digest(*self as u64)
    }

    fn render(&self) -> (s: String) {
        let mut s = String::new();
        push_decimal(&mut s, *self as u64);
        s
    }

    fn hash64(&self) -> (h: u64) {
        hash_word(*self as u64)
    }
}

impl EndpointId for usize {
    open spec fn text(&self) -> Seq<char> {
        decimal(*self as nat)
    }

    open spec fn digest(&self) -> u64 {
        word_digest(*self as u64)
    }

    fn render(&self) -> (s: String) {
        let mut s = String::new();
        push_decimal(&mut s, *self as u64);
        s
    }

    fn hash64(&self) -> (h: u64) {
        hash_word(*self as u64)
    }
}

impl EndpointId for i64 {
    open spec fn text(&self) -> Seq<char> {
        signed_decimal(*self as int)
    }

    open spec fn digest(&self) -> u64 {
        word_digest((*self as i64) as u64)
    }

    fn render(&self) -> (s: String) {
        let mut s = String::new();
        push_signed_decimal(&mut s, *self as i128);
        s
    }

    fn hash64(&self) -> (h: u64) {
        hash_word((*self as i64) as u64)
    }
}

impl EndpointId for i32 {
    open spec fn text(&self) -> Seq<char> {
        signed_decimal(*self as int)
    }

    open spec fn digest(&self) -> u64 {
        word_digest((*self as i64) as u64)
    }

    fn render(&self) -> (s: String) {
        let mut s = String::new();
        push_signed_decimal(&mut s, *self as i128);
        s
    }

    fn hash64(&self) -> (h: u64) {
        hash_word((*self as i64) as u64)
    }
}

impl EndpointId for i16 {
    open spec fn text(&self) -> Seq<char> {
        signed_decimal(*self as int)
    }

    open spec fn digest(&self) -> u64 {
        word_digest((*self as i64) as u64)
    }

    fn render(&self) -> (s: String) {
        let mut s = String::new();
        push_signed_decimal(&mut s, *self as i128);
        s
    }

    fn hash64(&self) -> (h: u64) {
        hash_word((*self as i64) as u64)
    }
}

impl EndpointId for i8 {
    open spec fn text(&self) -> Seq<char> {
        signed_decimal(*self as int)
    }

    open spec fn digest(&self) -> u64 {
        word_digest((*self as i64) as u64)
    }

    fn render(&self) -> (s: String) {
        let mut s = String::new();
        push_signed_decimal(&mut s, *self as i128);
        s
    }

    fn hash64(&self) -> (h: u64) {
        hash_word((*self as i64) as u64)
    }
}

impl EndpointId for isize {
    open spec fn text(&self) -> Seq<char> {
        signed_decimal(*self as int)
    }

    open spec fn digest(&self) -> u64 {
        word_digest((*self as i64) as u64)
    }

    fn render(&self) -> (s: String) {
        let mut s = String::new();
        push_signed_decimal(&mut s, *self as i128);
        s
    }

    fn hash64(&self) -> (h: u64) {
        hash_word((*self as i64) as u64)
    }
}

impl EndpointId for u128 {
    open spec fn text(&self) -> Seq<char> {
        decimal(*self as nat)
    }

    open spec fn digest(&self) -> u64 {
        pair_digest(*self as u64, (*self >> 64) as u64)
    }

    fn render(&self) -> (s: String) {
        let mut s = String::new();
        push_decimal_wide(&mut s, *self);
        s
    }

    fn hash64(&self) -> (h: u64) {
        hash_pair(*self as u64, (*self >> 64) as u64)
    }
}

impl EndpointId for i128 {
    open spec fn text(&self) -> Seq<char> {
        signed_decimal(*self as int)
    }

    open spec fn digest(&self) -> u64 {
        pair_digest(*self as u64, (*self >> 64) as u64)
    }

    fn render(&self) -> (s: String) {
        let mut s = String::new();
        push_signed_decimal(&mut s, *self);
        s
    }

    fn hash64(&self) -> (h: u64) {
        hash_pair(*self as u64, (*self >> 64) as u64)
    }
}

impl EndpointId for String {
    open spec fn text(&self) -> Seq<char> {
        self@
    }

    open spec fn digest(&self) -> u64 {
        text_digest(self@)
    }

    fn render(&self) -> (s: String) {
        self.clone()
    }

    fn hash64(&self) -> (h: u64) {
        hash_str(self.as_str())
    }
}

} // verus!
