//! The 64-bit Fx hash that cache keys are made of.
//!
//! The hasher itself belongs to the `fxhash` crate. Only its word-sized
//! writes are used: on those its result is the same on every machine.
use vstd::prelude::*;
use vstd::string::*;
use std::hash::Hasher;

verus! {

/// `fxhash::FxHasher64`, the hasher. Nothing of its inside is known here.
#[verifier::external_type_specification]
#[verifier::external_body]
pub struct ExFxHasher64(fxhash::FxHasher64);

/// The running hash that a `fxhash::FxHasher64` holds.
pub uninterp spec fn hasher_state(h: fxhash::FxHasher64) -> u64;

/// The odd constant that the Fx hash multiplies by.
pub const FX_SEED: u64 = 0x517cc1b727220a95;

/// One step of the Fx hash: the running hash is rotated left by five
/// bits, the word is mixed in by exclusive or, and the whole is multiplied
/// by the seed, modulo 2 to the 64th.
pub open spec fn fx_mix(state: u64, word: u64) -> u64 {
    (((((state << 5) | (state >> 59)) ^ word) * FX_SEED) % 0x1_0000_0000_0000_0000) as u64
}

/// `FxHasher64::default()`: a fresh hasher, whose running hash is zero.
#[verifier::external_body]
fn hasher_new() -> (h: fxhash::FxHasher64)
    ensures
        hasher_state(h) == 0,
{
    fxhash::FxHasher64::default()
}

/// `Hasher::write_u8` of `FxHasher64`: one step of the hash, with the byte
/// as the word.
#[verifier::external_body]
fn hasher_write_u8(h: &mut fxhash::FxHasher64, byte: u8)
    ensures
        hasher_state(*final(h)) == fx_mix(hasher_state(*old(h)), byte as u64),
{
    h.write_u8(byte)
}

/// `Hasher::write_u64` of `FxHasher64`: one step of the hash.
#[verifier::external_body]
fn hasher_write_u64(h: &mut fxhash::FxHasher64, word: u64)
    ensures
        hasher_state(*final(h)) == fx_mix(hasher_state(*old(h)), word),
{
    h.write_u64(word)
}

/// `Hasher::finish` of `FxHasher64`: hands out the running hash.
#[verifier::external_body]
fn hasher_finish(h: &fxhash::FxHasher64) -> (r: u64)
    ensures
        r == hasher_state(*h),
{
    h.finish()
}

/// The hash of nothing: what a fresh hasher hands out. It stands for the
/// unit key of fixed endpoints and of id lists.
pub open spec fn unit_digest() -> u64 {
    0
}

/// The hash of one 64-bit word.
pub open spec fn word_digest(word: u64) -> u64 {
    fx_mix(0, word)
}

/// The hash of two 64-bit words, one after the other.
pub open spec fn pair_digest(first: u64, second: u64) -> u64 {
    fx_mix(fx_mix(0, first), second)
}

/// The hash of a byte string, fed to the hasher byte by byte.
pub open spec fn bytes_digest(bytes: Seq<u8>) -> u64
    decreases bytes.len(),
{
    if bytes.len() == 0 {
        0
    } else {
        fx_mix(bytes_digest(bytes.drop_last()), bytes.last() as u64)
    }
}

/// The hash of a text: that of its UTF-8 bytes.
pub open spec fn text_digest(text: Seq<char>) -> u64 {
    bytes_digest(vstd::utf8::encode_utf8(text))
}

/// The hash of a word is the word times the seed, modulo 2 to the 64th.
pub proof fn lemma_word_digest(word: u64)
    ensures
        word_digest(word) == (word * FX_SEED) % 0x1_0000_0000_0000_0000,
{
    assert((((0u64 << 5) | (0u64 >> 59)) ^ word) == word) by (bit_vector);
}

/// Different words have different hashes: the seed is odd, so multiplying
/// by it modulo 2 to the 64th loses nothing.
pub proof fn lemma_word_digest_injective(a: u64, b: u64)
    requires
        word_digest(a) == word_digest(b),
    ensures
        a == b,
{
    lemma_word_digest(a);
    lemma_word_digest(b);
    let m = 0x1_0000_0000_0000_0000int;
    let s = 0x517cc1b727220a95int;
    let inverse = 0x2040003d780970bdint;
    let x = a as int;
    let y = b as int;
    assert(s * inverse == 1 + 0xa43f77ae39dae8dint * m);
    assert((x * s) % m == (y * s) % m);
    let q = (x * s) / m - (y * s) / m;
    assert(x * s - y * s == q * m);
    assert((x - y) * s * inverse == q * m * inverse) by (nonlinear_arith)
        requires
            x * s - y * s == q * m,
    ;
    assert((x - y) * s * inverse == (x - y) * (1 + 0xa43f77ae39dae8dint * m))
        by (nonlinear_arith)
        requires
            s * inverse == 1 + 0xa43f77ae39dae8dint * m,
    ;
    assert(x - y == m * (q * inverse - (x - y) * 0xa43f77ae39dae8dint)) by (nonlinear_arith)
        requires
            (x - y) * s * inverse == q * m * inverse,
            (x - y) * s * inverse == (x - y) * (1 + 0xa43f77ae39dae8dint * m),
    ;
    let k = q * inverse - (x - y) * 0xa43f77ae39dae8dint;
    assert(x - y == m * k);
    assert(-m < x - y < m);
    assert(k == 0) by (nonlinear_arith)
        requires
            x - y == m * k,
            -m < x - y < m,
            m == 0x1_0000_0000_0000_0000int,
    ;
}

/// Hashes nothing.
pub fn hash_unit() -> (r: u64)
    ensures
        r == unit_digest(),
{
    let h = hasher_new();
    hasher_finish(&h)
}

/// Hashes one 64-bit word.
pub fn hash_word(word: u64) -> (r: u64)
    ensures
        r == word_digest(word),
{
    let mut h = hasher_new();
    hasher_write_u64(&mut h, word);
    hasher_finish(&h)
}

/// Hashes two 64-bit words, one after the other.
pub fn hash_pair(first: u64, second: u64) -> (r: u64)
    ensures
        r == pair_digest(first, second),
{
    let mut h = hasher_new();
    hasher_write_u64(&mut h, first);
    hasher_write_u64(&mut h, second);
    hasher_finish(&h)
}

/// Hashes the UTF-8 bytes of a string, one byte at a time.
pub fn hash_str(s: &str) -> (r: u64)
    ensures
        r == text_digest(s@),
{
    let bytes = s.as_bytes();
    let mut h = hasher_new();
    let mut i: usize = 0;
    while i < bytes.len()
        invariant
            i <= bytes.len(),
            hasher_state(h) == bytes_digest(bytes@.take(i as int)),
        decreases bytes.len() - i,
    {
        assert(bytes@.take(i + 1).drop_last() =~= bytes@.take(i as int));
        hasher_write_u8(&mut h, bytes[i]);
        i += 1;
    }
    assert(bytes@.take(i as int) =~= bytes@);
    hasher_finish(&h)
}

} // verus!
