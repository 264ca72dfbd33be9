use std::sync::Arc;

use gw2api_http::cache::{item_key, unit_key};
use gw2api_http::{Cache, CacheKey, Endpoint, EndpointWithId, Language, ValueKind};

struct Items;

impl Endpoint for Items {
    const AUTHENTICATED: bool = false;
    const LOCALE: bool = true;
    const URL: &'static str = "v2/items";
    const VERSION: &'static str = "v";
}

impl EndpointWithId for Items {
    type IdType = u64;
}

struct Skins;

impl Endpoint for Skins {
    const AUTHENTICATED: bool = false;
    const LOCALE: bool = false;
    const URL: &'static str = "v2/skins";
    const VERSION: &'static str = "v";
}

impl EndpointWithId for Skins {
    type IdType = String;
}

fn key(id: u64) -> CacheKey {
    item_key::<Items>(&id, Language::En)
}

#[test]
fn cache_returns_what_was_stored() {
    let mut cache: Cache<String> = Cache::new();
    assert!(cache.get(&key(1), 0).is_none());
    cache.insert(key(1), Arc::new(String::from("one")), 100);
    cache.insert(key(2), Arc::new(String::from("two")), 100);
    assert_eq!(cache.get(&key(1), 0).as_deref(), Some(&String::from("one")));
    assert_eq!(cache.get(&key(2), 0).as_deref(), Some(&String::from("two")));
    assert!(cache.get(&key(3), 0).is_none());
}

#[test]
fn cache_entry_is_gone_at_its_expiry() {
    let mut cache: Cache<u8> = Cache::new();
    cache.insert(key(1), Arc::new(7), 100);
    assert_eq!(cache.get(&key(1), 99).as_deref(), Some(&7));
    assert!(cache.get(&key(1), 100).is_none());
    assert!(cache.get(&key(1), 101).is_none());
    assert_eq!(cache.get(&key(1), i64::MIN).as_deref(), Some(&7));
}

#[test]
fn cache_insert_replaces() {
    let mut cache: Cache<u8> = Cache::new();
    cache.insert(key(1), Arc::new(7), 100);
    cache.insert(key(2), Arc::new(9), 100);
    cache.insert(key(1), Arc::new(8), 50);
    assert_eq!(cache.get(&key(1), 49).as_deref(), Some(&8));
    assert!(cache.get(&key(1), 50).is_none());
    assert_eq!(cache.get(&key(2), 99).as_deref(), Some(&9));
    cache.insert(key(1), Arc::new(6), 200);
    assert_eq!(cache.get(&key(1), 150).as_deref(), Some(&6));
}

#[test]
fn cache_hands_out_the_stored_handle() {
    let mut cache: Cache<String> = Cache::new();
    let value = Arc::new(String::from("shared"));
    cache.insert(key(1), value.clone(), 100);
    let got = cache.get(&key(1), 0).unwrap();
    assert!(Arc::ptr_eq(&got, &value));
    assert_eq!(Arc::strong_count(&value), 3);
}

#[test]
fn keys_differ_by_endpoint_kind_id_and_language() {
    let english = item_key::<Items>(&7, Language::En);
    assert_eq!(english, item_key::<Items>(&7, Language::En));
    assert_ne!(english, item_key::<Items>(&8, Language::En));
    assert_ne!(english, item_key::<Items>(&7, Language::Fr));
    assert_eq!(english.kind, ValueKind::Item);
    assert_eq!(english.language, Some(Language::En));
    let list = unit_key::<Items>(ValueKind::IdList, Language::En);
    let document = unit_key::<Items>(ValueKind::Item, Language::En);
    assert_ne!(list, document);
    assert_eq!(list.id, 0);
    assert_eq!(list.endpoint, english.endpoint);
    let skin = item_key::<Skins>(&String::from("7"), Language::En);
    assert_eq!(skin, item_key::<Skins>(&String::from("7"), Language::Zh));
    assert_eq!(skin.language, None);
    assert_ne!(skin.endpoint, english.endpoint);
    assert_ne!(unit_key::<Skins>(ValueKind::IdList, Language::En), list);
}

#[test]
fn cache_keeps_keys_apart() {
    let mut cache: Cache<u8> = Cache::new();
    cache.insert(item_key::<Items>(&7, Language::En), Arc::new(1), 100);
    assert!(cache.get(&item_key::<Items>(&7, Language::De), 0).is_none());
    assert!(cache.get(&unit_key::<Items>(ValueKind::Item, Language::En), 0).is_none());
    let other = CacheKey { endpoint: 1, ..item_key::<Items>(&7, Language::En) };
    assert!(cache.get(&other, 0).is_none());
    let listing = CacheKey { kind: ValueKind::IdList, ..item_key::<Items>(&7, Language::En) };
    assert!(cache.get(&listing, 0).is_none());
    cache.insert(listing, Arc::new(2), 100);
    assert_eq!(cache.get(&item_key::<Items>(&7, Language::En), 0).as_deref(), Some(&1));
    assert_eq!(cache.get(&listing, 0).as_deref(), Some(&2));
}
