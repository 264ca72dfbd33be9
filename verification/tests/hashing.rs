use std::hash::Hasher;

use gw2api_http::hashing::{hash_str, hash_unit, hash_word};
use gw2api_http::EndpointId;

fn by_bytes(bytes: &[u8]) -> u64 {
    let mut hasher = fxhash::FxHasher64::default();
    for b in bytes {
        hasher.write_u8(*b);
    }
    hasher.finish()
}

#[test]
fn unit_hashes_to_zero() {
    assert_eq!(hash_unit(), 0);
    assert_eq!(hash_unit(), fxhash::hash64(&()));
    assert_eq!(hash_str(""), 0);
}

#[test]
fn words_hash_as_fxhash_does() {
    for word in [0u64, 1, 5, 19721, 77474, u64::MAX] {
        assert_eq!(hash_word(word), fxhash::hash64(&word));
        assert_eq!(word.hash64(), fxhash::hash64(&word));
    }
    assert_eq!(hash_word(1), 0x517cc1b727220a95);
    assert_ne!(hash_word(5), 5);
    assert_ne!(hash_word(5), hash_word(6));
}

#[test]
fn texts_hash_byte_by_byte() {
    for text in ["a", "Legend1", "v2/items", "grüße"] {
        assert_eq!(hash_str(text), by_bytes(text.as_bytes()));
        assert_eq!(String::from(text).hash64(), by_bytes(text.as_bytes()));
    }
    assert_eq!(hash_str("a"), 97u64.wrapping_mul(0x517cc1b727220a95));
    assert_ne!(hash_str("Legend1"), hash_str("Legend2"));
    assert_ne!(hash_str("ab"), hash_str("ba"));
}

#[test]
fn words_hash_by_rotate_xor_multiply() {
    let seed = gw2api_http::hashing::FX_SEED;
    assert_eq!(seed, 0x517cc1b727220a95);
    for word in [0u64, 1, 2, 19721, u64::MAX, 1 << 63] {
        assert_eq!(hash_word(word), word.wrapping_mul(seed));
    }
    let mut state = 0u64;
    for b in "v2/items".bytes() {
        state = (state.rotate_left(5) ^ b as u64).wrapping_mul(seed);
    }
    assert_eq!(hash_str("v2/items"), state);
    // different numbers never share a hash
    let mut seen: Vec<u64> = (0..2000u64).map(hash_word).collect();
    seen.sort();
    seen.dedup();
    assert_eq!(seen.len(), 2000);
}
