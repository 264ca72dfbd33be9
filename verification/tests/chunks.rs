use gw2api_http::chunks::{join_ids, CHUNK_SIZE};
use gw2api_http::ids::push_decimal;
use gw2api_http::EndpointId;

#[test]
fn join_ids_empty_list_gives_no_chunk() {
    let ids: Vec<u64> = Vec::new();
    assert!(join_ids(&ids).is_empty());
}

#[test]
fn join_ids_single_id_has_no_comma() {
    assert_eq!(join_ids(&[19721u64]), vec![String::from("19721")]);
}

#[test]
fn join_ids_separates_by_comma() {
    assert_eq!(join_ids(&[1u64, 2, 3, 4]), vec![String::from("1,2,3,4")]);
}

#[test]
fn join_ids_chunks_by_200() {
    assert_eq!(CHUNK_SIZE, 200);
    let ids: Vec<u64> = (1..=250).collect();
    let chunks = join_ids(&ids);
    assert_eq!(chunks.len(), 2);
    let first: Vec<String> = (1..=200).map(|i: u64| i.to_string()).collect();
    let second: Vec<String> = (201..=250).map(|i: u64| i.to_string()).collect();
    assert_eq!(chunks[0], first.join(","));
    assert_eq!(chunks[1], second.join(","));
}

#[test]
fn join_ids_chunk_counts() {
    for (len, chunks) in [(0u64, 0usize), (1, 1), (199, 1), (200, 1), (201, 2), (400, 2), (401, 3), (1000, 5)] {
        let ids: Vec<u64> = (0..len).collect();
        let joined = join_ids(&ids);
        assert_eq!(joined.len(), chunks);
        for chunk in &joined {
            assert!(!chunk.is_empty());
            assert!(!chunk.starts_with(',') && !chunk.ends_with(','));
            assert!(chunk.split(',').count() <= 200);
        }
        let total: usize = joined.iter().map(|c| c.split(',').count()).sum();
        assert_eq!(total as u64, len);
    }
}

#[test]
fn join_ids_of_texts() {
    let ids = vec![String::from("Legend1"), String::from("Legend2")];
    assert_eq!(join_ids(&ids), vec![String::from("Legend1,Legend2")]);
}

#[test]
fn ids_render_in_decimal() {
    assert_eq!(0u64.render(), "0");
    assert_eq!(7u64.render(), "7");
    assert_eq!(10u64.render(), "10");
    assert_eq!(19721u64.render(), "19721");
    assert_eq!(u64::MAX.render(), "18446744073709551615");
    assert_eq!(String::from("Legend1").render(), "Legend1");
    let mut out = String::from("page=");
    push_decimal(&mut out, 1050);
    assert_eq!(out, "page=1050");
}

#[test]
fn ids_of_every_width_render_and_hash_alike() {
    assert_eq!(255u8.render(), "255");
    assert_eq!(65535u16.render(), "65535");
    assert_eq!(4294967295u32.render(), "4294967295");
    assert_eq!(0usize.render(), "0");
    assert_eq!(12usize.render(), "12");
    assert_eq!(7u8.hash64(), 7u64.hash64());
    assert_eq!(300u16.hash64(), 300u64.hash64());
    assert_eq!(28134u32.hash64(), 28134u64.hash64());
    assert_eq!(28134usize.hash64(), 28134u64.hash64());
    assert_ne!(28134u32.hash64(), 28135u32.hash64());
    assert_eq!(join_ids(&[28134u32, 28219, 28287]), vec![String::from("28134,28219,28287")]);
    assert_eq!(join_ids(&[1u8, 2]), vec![String::from("1,2")]);
}

#[test]
fn signed_and_wide_ids_render_and_hash() {
    assert_eq!((-1i8).render(), "-1");
    assert_eq!(i8::MIN.render(), "-128");
    assert_eq!(i16::MAX.render(), "32767");
    assert_eq!((-19721i32).render(), "-19721");
    assert_eq!(0i32.render(), "0");
    assert_eq!(i64::MIN.render(), "-9223372036854775808");
    assert_eq!(i64::MAX.render(), "9223372036854775807");
    assert_eq!((-5isize).render(), "-5");
    assert_eq!(u128::MAX.render(), "340282366920938463463374607431768211455");
    assert_eq!(i128::MIN.render(), "-170141183460469231731687303715884105728");
    assert_eq!(12u128.render(), "12");
    assert_eq!(5i32.hash64(), 5u64.hash64());
    assert_eq!((-1i32).hash64(), u64::MAX.hash64());
    assert_eq!((-1i8).hash64(), (-1i64).hash64());
    assert_ne!((-1i32).hash64(), 1i32.hash64());
    assert_ne!(1u128.hash64(), (1u128 << 64).hash64());
    assert_ne!(1u128.hash64(), 2u128.hash64());
    assert_eq!(1i128.hash64(), 1u128.hash64());
    assert_eq!(join_ids(&[-1i64, 0, 1]), vec![String::from("-1,0,1")]);
    let mut out = String::new();
    gw2api_http::ids::push_signed_decimal(&mut out, -42);
    gw2api_http::ids::push_decimal_wide(&mut out, 42);
    assert_eq!(out, "-4242");
    assert_eq!(gw2api_http::hashing::hash_pair(0, 0), 0);
    assert_ne!(gw2api_http::hashing::hash_pair(1, 2), gw2api_http::hashing::hash_pair(2, 1));
}
