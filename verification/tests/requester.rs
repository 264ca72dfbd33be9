use std::sync::Arc;

use gw2api_http::bulk::{abandon_many, gather};
use gw2api_http::paging::remaining_pages;
use gw2api_http::requester::{abandon, resume};
use gw2api_http::{
    AllStep, Batch, BulkEndpoint, Client, Endpoint, EndpointError, EndpointWithId, FixedEndpoint,
    Gathered, Header, Language, Request, Requester, Response, Step, Store,
};

const HOST: &str = "https://api.guildwars2.com";
const VERSION: &str = "2022-07-22T00:00:00.000Z";

#[derive(Clone, Debug, PartialEq, Eq)]
struct Build {
    id: u64,
}

impl Endpoint for Build {
    const AUTHENTICATED: bool = false;
    const LOCALE: bool = false;
    const URL: &'static str = "v2/build";
    const VERSION: &'static str = VERSION;
}

impl FixedEndpoint for Build {}

#[derive(Clone, Debug, PartialEq, Eq)]
struct Account {
    name: String,
}

impl Endpoint for Account {
    const AUTHENTICATED: bool = true;
    const LOCALE: bool = false;
    const URL: &'static str = "v2/account";
    const VERSION: &'static str = VERSION;
}

impl FixedEndpoint for Account {}

#[derive(Clone, Debug, PartialEq, Eq)]
struct Item {
    id: u64,
    name: String,
}

impl Endpoint for Item {
    const AUTHENTICATED: bool = false;
    const LOCALE: bool = true;
    const URL: &'static str = "v2/items";
    const VERSION: &'static str = VERSION;
}

impl EndpointWithId for Item {
    type IdType = u64;
}

impl BulkEndpoint for Item {
    const ALL: bool = false;
    const PAGING: bool = true;

    fn id(&self) -> &u64 {
        &self.id
    }
}

#[derive(Clone, Debug, PartialEq, Eq)]
struct Color {
    id: u64,
}

impl Endpoint for Color {
    const AUTHENTICATED: bool = false;
    const LOCALE: bool = true;
    const URL: &'static str = "v2/colors";
    const VERSION: &'static str = VERSION;
}

impl EndpointWithId for Color {
    type IdType = u64;
}

impl BulkEndpoint for Color {
    const ALL: bool = true;
    const PAGING: bool = false;

    fn id(&self) -> &u64 {
        &self.id
    }
}

#[derive(Clone, Debug, PartialEq, Eq)]
struct Vault {
    id: u64,
}

impl Endpoint for Vault {
    const AUTHENTICATED: bool = true;
    const LOCALE: bool = false;
    const URL: &'static str = "v2/account/vault";
    const VERSION: &'static str = VERSION;
}

impl EndpointWithId for Vault {
    type IdType = u64;
}

impl BulkEndpoint for Vault {
    const ALL: bool = true;
    const PAGING: bool = true;

    fn id(&self) -> &u64 {
        &self.id
    }
}

fn client() -> Client {
    Client { host: String::from(HOST), language: Language::En, api_key: None }
}

fn response(headers: &[(&str, &str)]) -> Response {
    Response {
        status: 200,
        headers: headers
            .iter()
            .map(|(name, value)| Header { name: String::from(*name), value: String::from(*value) })
            .collect(),
    }
}

fn item(id: u64) -> Item {
    Item { id, name: format!("item {}", id) }
}

fn schema_only() -> Vec<Header> {
    vec![Header { name: String::from("X-Schema-Version"), value: String::from(VERSION) }]
}

fn requested_ids(request: &Request) -> Vec<u64> {
    let at = request.url.find("ids=").unwrap() + 4;
    request.url[at..].split(',').map(|id| id.parse().unwrap()).collect()
}

fn sent<K>(step: Step<K>) -> (gw2api_http::Guard, Request) {
    match step {
        Step::Send(guard, request) => (guard, request),
        _ => panic!("a request was expected"),
    }
}

fn done<K>(step: Step<K>) -> Arc<K> {
    match step {
        Step::Done(value) => value,
        _ => panic!("a value was expected"),
    }
}

fn waiting<K>(step: Step<K>) -> gw2api_http::Ticket {
    match step {
        Step::Wait(ticket) => ticket,
        _ => panic!("a ticket was expected"),
    }
}

fn planned(r: Result<Batch<Item>, EndpointError>) -> Batch<Item> {
    match r {
        Ok(batch) => batch,
        Err(_) => panic!("a batch was expected"),
    }
}

fn gathered(g: Gathered<Item>) -> Vec<Arc<Item>> {
    match g {
        Gathered::Done(values) => values,
        _ => panic!("all values were expected"),
    }
}

#[test]
fn get_fixed() {
    let client = client();
    let mut store: Store<Build> = Store::new();
    let (guard, request) = sent(client.get::<Build>(&mut store, 1000));
    assert_eq!(request.url, "https://api.guildwars2.com/v2/build");
    assert_eq!(request.headers, schema_only());
    let build = client.fulfil(&mut store, guard, &response(&[]), Build { id: 115267 }, 1000).unwrap();
    assert_eq!(*build, Build { id: 115267 });
    let again = done(client.get::<Build>(&mut store, 1001));
    assert_eq!(*again, Build { id: 115267 });
}

#[test]
fn single_item() {
    let client = client();
    let mut store: Store<Item> = Store::new();
    assert!(client.try_get::<Item>(&store, &19721, 1000).is_none());
    let (guard, request) = sent(client.single::<Item>(&mut store, 19721, 1000));
    assert_eq!(request.url, "https://api.guildwars2.com/v2/items/19721?lang=en");
    assert_eq!(request.headers, schema_only());
    client.fulfil(&mut store, guard, &response(&[]), item(19721), 1000).unwrap();
    assert_eq!(client.try_get::<Item>(&store, &19721, 1000).as_deref(), Some(&item(19721)));
    assert!(client.try_get::<Item>(&store, &19722, 1000).is_none());
}

#[test]
fn many_items_chunking() {
    let client = client();
    let mut store: Store<Item> = Store::new();
    let ids: Vec<u64> = (1..=250).collect();
    let mut batch = planned(client.many::<Item>(&mut store, ids, 1000));
    assert_eq!(batch.requests.len(), 2);
    assert_eq!(batch.guards.len(), 250);
    assert_eq!(batch.unanswered(), 250);
    assert!(batch.result.is_empty() && batch.tickets.is_empty() && batch.retry.is_empty());
    let first: Vec<String> = (1..=200).map(|i: u64| i.to_string()).collect();
    let second: Vec<String> = (201..=250).map(|i: u64| i.to_string()).collect();
    assert_eq!(
        batch.requests[0].url,
        format!("{}/v2/items?lang=en&ids={}", HOST, first.join(","))
    );
    assert_eq!(
        batch.requests[1].url,
        format!("{}/v2/items?lang=en&ids={}", HOST, second.join(","))
    );
    let requests = batch.requests.clone();
    for request in &requests {
        let items: Vec<Item> = requested_ids(request).into_iter().map(item).collect();
        client.fulfil_chunk::<Item>(&mut store, &mut batch, &response(&[]), items, 1000).unwrap();
    }
    assert_eq!(batch.guards.len(), 250);
    assert_eq!(batch.unanswered(), 0);
    let values = gathered(gather(&mut store, batch));
    assert_eq!(values.len(), 250);
    for id in 1..=250u64 {
        assert_eq!(client.try_get::<Item>(&store, &id, 1000).as_deref(), Some(&item(id)));
    }
    assert!(client.try_get::<Item>(&store, &251, 1000).is_none());
}

#[test]
fn coalescing() {
    let client = client();
    let mut store: Store<Item> = Store::new();
    let mut requests = Vec::new();
    let mut tickets = Vec::new();
    let mut guards = Vec::new();
    for _ in 0..10 {
        match client.single::<Item>(&mut store, 77474, 1000) {
            Step::Send(guard, request) => {
                guards.push(guard);
                requests.push(request);
            }
            Step::Wait(ticket) => tickets.push(ticket),
            _ => panic!("a request or a ticket was expected"),
        }
    }
    assert_eq!(requests.len(), 1);
    assert_eq!(tickets.len(), 9);
    let guard = guards.pop().unwrap();
    let produced = client.fulfil(&mut store, guard, &response(&[]), item(77474), 1000).unwrap();
    for ticket in tickets {
        let received = done(resume(&mut store, ticket));
        assert_eq!(*received, *produced);
    }
    let _ = sent(client.forced().single::<Item>(&mut store, 77474, 1000));
}

#[test]
fn coalescing_producer_fails() {
    let client = client();
    let mut store: Store<Item> = Store::new();
    let (guard, _) = sent(client.single::<Item>(&mut store, 77474, 1000));
    let first = waiting(client.single::<Item>(&mut store, 77474, 1000));
    let second = waiting(client.single::<Item>(&mut store, 77474, 1000));
    let first = waiting(resume(&mut store, first));
    abandon(&mut store, guard);
    for ticket in [first, second] {
        match resume(&mut store, ticket) {
            Step::Failed(e) => assert_eq!(e, EndpointError::Receive),
            _ => panic!("a failure was expected"),
        }
    }
    let _ = sent(client.single::<Item>(&mut store, 77474, 1000));
}

#[test]
fn forced_refresh() {
    let client = client();
    let mut store: Store<Item> = Store::new();
    let (guard, _) = sent(client.single::<Item>(&mut store, 19993, 1000));
    client.fulfil(&mut store, guard, &response(&[]), item(19993), 1000).unwrap();
    assert_eq!(*done(client.single::<Item>(&mut store, 19993, 1001)), item(19993));
    let forced = client.forced();
    let (guard, request) = sent(forced.single::<Item>(&mut store, 19993, 1001));
    assert_eq!(request.url, "https://api.guildwars2.com/v2/items/19993?lang=en");
    let fresh = Item { id: 19993, name: String::from("fresh") };
    forced.fulfil(&mut store, guard, &response(&[]), fresh.clone(), 1001).unwrap();
    assert_eq!(*done(client.single::<Item>(&mut store, 19993, 1002)), fresh);
}

#[test]
fn all_via_ids() {
    let client = client();
    let mut lists: Store<Vec<u64>> = Store::new();
    let mut store: Store<Item> = Store::new();
    let mut calls = 0;
    let first = match client.all::<Item>(&mut lists, 1000) {
        AllStep::Listing(first) => first,
        _ => panic!("the list of ids was expected first"),
    };
    let (guard, request) = sent(first);
    assert_eq!(request.url, "https://api.guildwars2.com/v2/items?lang=en");
    calls += 1;
    let ids: Vec<u64> = (1..=450).collect();
    let listed = client.fulfil(&mut lists, guard, &response(&[]), ids, 1000).unwrap();
    let mut batch = planned(client.many::<Item>(&mut store, listed.to_vec(), 1000));
    let requests = batch.requests.clone();
    for request in &requests {
        calls += 1;
        let items: Vec<Item> = requested_ids(request).into_iter().map(item).collect();
        assert!(items.len() <= 200);
        client.fulfil_chunk::<Item>(&mut store, &mut batch, &response(&[]), items, 1000).unwrap();
    }
    assert_eq!(calls, 1 + 3);
    assert_eq!(gathered(gather(&mut store, batch)).len(), 450);
    match client.all::<Item>(&mut lists, 1001) {
        AllStep::Listing(Step::Done(ids)) => assert_eq!(ids.len(), 450),
        _ => panic!("the cached list of ids was expected"),
    }
}

#[test]
fn all_via_ids_all() {
    let client = client();
    let mut lists: Store<Vec<u64>> = Store::new();
    let mut store: Store<Color> = Store::new();
    let request = match client.all::<Color>(&mut lists, 1000) {
        AllStep::Everything(request) => request,
        _ => panic!("one request for everything was expected"),
    };
    assert_eq!(request.url, "https://api.guildwars2.com/v2/colors?lang=en&ids=all");
    let mut result = Vec::new();
    let total = client.fulfil_page::<Color>(
        &mut store,
        &response(&[("x-result-total", "3")]),
        vec![Color { id: 1 }, Color { id: 2 }, Color { id: 3 }],
        &mut result,
        1000,
    ).unwrap();
    assert_eq!(total, 3);
    assert_eq!(result.len(), 3);
    assert_eq!(client.try_get::<Color>(&store, &2, 1000).as_deref(), Some(&Color { id: 2 }));
}

#[test]
fn cache_hit_avoids_network() {
    let client = client();
    let mut store: Store<Item> = Store::new();
    let key = gw2api_http::cache::item_key::<Item>(&7, Language::En);
    store.cache.insert(key, Arc::new(item(7)), 2000);
    assert_eq!(*done(client.single::<Item>(&mut store, 7, 1999)), item(7));
    let batch = planned(client.many::<Item>(&mut store, vec![7, 7], 1999));
    assert!(batch.requests.is_empty() && batch.guards.is_empty());
    assert_eq!(batch.result.len(), 2);
    // nothing was claimed on the way
    let _ = sent(client.forced().single::<Item>(&mut store, 7, 1999));
}

#[test]
fn expiry_honored() {
    let client = client();
    let mut store: Store<Item> = Store::new();
    let key = gw2api_http::cache::item_key::<Item>(&7, Language::En);
    store.cache.insert(key, Arc::new(item(7)), 2000);
    assert!(client.try_get::<Item>(&store, &7, 2000).is_none());
    let (guard, _) = sent(client.single::<Item>(&mut store, 7, 2000));
    let fresh = Item { id: 7, name: String::from("fresh") };
    client.fulfil(&mut store, guard, &response(&[("cache-control", "60")]), fresh.clone(), 2000).unwrap();
    assert_eq!(*done(client.single::<Item>(&mut store, 7, 2059)), fresh);
    let _ = sent(client.single::<Item>(&mut store, 7, 2060));
}

#[test]
fn cached_duration_overrides_header() {
    let client = client();
    let mut store: Store<Item> = Store::new();
    let cached = client.cached(5);
    let (guard, _) = sent(cached.single::<Item>(&mut store, 7, 1000));
    cached.fulfil(&mut store, guard, &response(&[("cache-control", "60")]), item(7), 1000).unwrap();
    assert!(client.try_get::<Item>(&store, &7, 1004).is_some());
    assert!(client.try_get::<Item>(&store, &7, 1005).is_none());
    let (guard, _) = sent(client.single::<Item>(&mut store, 7, 1005));
    client.fulfil(&mut store, guard, &response(&[]), item(7), 1005).unwrap();
    assert!(client.try_get::<Item>(&store, &7, 1304).is_some());
    assert!(client.try_get::<Item>(&store, &7, 1305).is_none());
}

#[test]
fn requester_settings() {
    let client = client();
    assert!(!client.force());
    assert_eq!(client.cache_duration(), 0);
    let cached = client.cached(5);
    assert!(!cached.force());
    assert_eq!(cached.cache_duration(), 5);
    let forced = cached.forced();
    assert!(forced.force());
    assert_eq!(forced.cache_duration(), 0);
    let forced = client.forced();
    let both = forced.cached(9);
    assert!(both.force());
    assert_eq!(both.cache_duration(), 9);
    assert_eq!(*both.client(), client);
}

#[test]
fn forced_bypass() {
    let client = client();
    let mut store: Store<Item> = Store::new();
    let key = gw2api_http::cache::item_key::<Item>(&7, Language::En);
    store.cache.insert(key, Arc::new(item(7)), 2000);
    let forced = client.forced();
    assert!(forced.try_get::<Item>(&store, &7, 1000).is_none());
    let batch = planned(forced.many::<Item>(&mut store, vec![7], 1000));
    assert_eq!(batch.requests.len(), 1);
    assert!(batch.result.is_empty());
    abandon_many(&mut store, batch);
    let (guard, _) = sent(forced.single::<Item>(&mut store, 7, 1000));
    // a forced request joins a producer that is at work
    let ticket = waiting(forced.single::<Item>(&mut store, 7, 1000));
    let fresh = Item { id: 7, name: String::from("fresh") };
    forced.fulfil(&mut store, guard, &response(&[]), fresh.clone(), 1000).unwrap();
    assert_eq!(*done(resume(&mut store, ticket)), fresh);
    assert_eq!(client.try_get::<Item>(&store, &7, 1000).as_deref(), Some(&fresh));
}

#[test]
fn bulk_chunking_bound() {
    let client = client();
    let mut store: Store<Item> = Store::new();
    for id in 1..=30u64 {
        let key = gw2api_http::cache::item_key::<Item>(&id, Language::En);
        store.cache.insert(key, Arc::new(item(id)), 2000);
    }
    let mut producers = Vec::new();
    for id in 31..=50u64 {
        producers.push(sent(client.single::<Item>(&mut store, id, 1000)).0);
    }
    let ids: Vec<u64> = (1..=450).collect();
    let batch = planned(client.many::<Item>(&mut store, ids, 1000));
    assert_eq!(batch.result.len(), 30);
    assert_eq!(batch.tickets.len(), 20);
    assert_eq!(batch.guards.len(), 400);
    assert_eq!(batch.requests.len(), 2);
    assert_eq!(requested_ids(&batch.requests[0]), (51..=250).collect::<Vec<u64>>());
    assert_eq!(requested_ids(&batch.requests[1]), (251..=450).collect::<Vec<u64>>());
    let one_more = planned(client.many::<Item>(&mut store, (451..=851).collect(), 1000));
    assert_eq!(one_more.requests.len(), 3);
    assert_eq!(requested_ids(&one_more.requests[2]), vec![851]);
    let none = planned(client.many::<Item>(&mut store, Vec::new(), 1000));
    assert!(none.requests.is_empty());
}

#[test]
fn many_waits_for_joined_producers() {
    let client = client();
    let mut store: Store<Item> = Store::new();
    let (guard, _) = sent(client.single::<Item>(&mut store, 3, 1000));
    let mut batch = planned(client.many::<Item>(&mut store, vec![3, 4, 4], 1000));
    assert_eq!(batch.tickets.len(), 2);
    assert_eq!(batch.guards.len(), 1);
    assert_eq!(requested_ids(&batch.requests[0]), vec![4]);
    client.fulfil_chunk::<Item>(&mut store, &mut batch, &response(&[]), vec![item(4)], 1000).unwrap();
    let batch = match gather(&mut store, batch) {
        Gathered::Wait(batch) => batch,
        _ => panic!("one producer is still at work"),
    };
    assert_eq!(batch.tickets.len(), 1);
    assert_eq!(batch.result.len(), 2);
    client.fulfil(&mut store, guard, &response(&[]), item(3), 1000).unwrap();
    let mut values: Vec<u64> = gathered(gather(&mut store, batch)).iter().map(|i| i.id).collect();
    values.sort();
    assert_eq!(values, vec![3, 4, 4]);
}

#[test]
fn many_omitted_id_closes_its_channel() {
    let client = client();
    let mut store: Store<Item> = Store::new();
    let mut batch = planned(client.many::<Item>(&mut store, vec![1, 2], 1000));
    let ticket = waiting(client.single::<Item>(&mut store, 2, 1000));
    client.fulfil_chunk::<Item>(&mut store, &mut batch, &response(&[]), vec![item(1)], 1000).unwrap();
    assert_eq!(batch.unanswered(), 1);
    // an item that comes twice, or for an id that was not claimed, is stored and hands nothing out
    client.fulfil_chunk::<Item>(&mut store, &mut batch, &response(&[]), vec![item(1), item(9)], 1000).unwrap();
    assert_eq!(batch.unanswered(), 1);
    assert_eq!(batch.result.len(), 3);
    batch.result.truncate(1);
    let values = gathered(gather(&mut store, batch));
    assert_eq!(values.len(), 1);
    match resume(&mut store, ticket) {
        Step::Failed(e) => assert_eq!(e, EndpointError::Receive),
        _ => panic!("a failure was expected"),
    }
    assert!(client.try_get::<Item>(&store, &2, 1000).is_none());
    assert!(client.try_get::<Item>(&store, &1, 1000).is_some());
}

#[test]
fn many_fails_when_a_joined_producer_fails() {
    let client = client();
    let mut store: Store<Item> = Store::new();
    let (guard, _) = sent(client.single::<Item>(&mut store, 3, 1000));
    let batch = planned(client.many::<Item>(&mut store, vec![3], 1000));
    abandon(&mut store, guard);
    match gather(&mut store, batch) {
        Gathered::Failed(e) => assert_eq!(e, EndpointError::Receive),
        _ => panic!("a failure was expected"),
    }
}

#[test]
fn stale_key_is_retried() {
    let client = client();
    let mut store: Store<Item> = Store::new();
    let (guard, _) = sent(client.single::<Item>(&mut store, 3, 1000));
    let key = guard.key;
    store.inflight.release(guard);
    assert!(matches!(client.single::<Item>(&mut store, 3, 1000), Step::Retry));
    let batch = planned(client.many::<Item>(&mut store, vec![3, 4], 1000));
    assert_eq!(batch.retry, vec![3]);
    assert_eq!(batch.guards.len(), 1);
    abandon_many(&mut store, batch);
    store.inflight.remove(&key);
    let batch = planned(client.many::<Item>(&mut store, vec![3, 4], 1000));
    assert!(batch.retry.is_empty());
    assert_eq!(batch.requests.len(), 1);
    abandon_many(&mut store, batch);
}

#[test]
fn stale_keys_are_asked_again_and_requested_once() {
    let client = client();
    let mut store: Store<Item> = Store::new();
    // ids 150 and 300 are stale: their producers are gone and not yet removed
    let mut stale = Vec::new();
    for id in [150u64, 300] {
        let (guard, _) = sent(client.single::<Item>(&mut store, id, 1000));
        stale.push(guard.key);
        store.inflight.release(guard);
    }
    let batch = planned(client.many::<Item>(&mut store, (1..=401).collect(), 1000));
    assert_eq!(batch.retry, vec![150, 300]);
    assert_eq!(batch.claimed.len(), 399);
    assert_eq!(batch.guards.len(), 399);
    assert!(batch.requests.is_empty());
    // still stale: nothing changes but the requests are not built yet
    let batch = planned(client.reask::<Item>(&mut store, batch, 1000));
    assert_eq!(batch.retry, vec![150, 300]);
    assert!(batch.requests.is_empty());
    // one becomes claimable, the other is in the cache by now
    store.inflight.remove(&stale[0]);
    store.inflight.remove(&stale[1]);
    store.cache.insert(stale[1], Arc::new(item(300)), 2000);
    let mut batch = planned(client.reask::<Item>(&mut store, batch, 1000));
    assert!(batch.retry.is_empty());
    assert_eq!(batch.result.len(), 1);
    assert_eq!(batch.claimed.len(), 400);
    assert_eq!(batch.guards.len(), 400);
    assert_eq!(batch.requests.len(), 2);
    assert_eq!(requested_ids(&batch.requests[0]).len(), 200);
    assert_eq!(requested_ids(&batch.requests[1]).len(), 200);
    assert_eq!(requested_ids(&batch.requests[1])[199], 150);
    let requests = batch.requests.clone();
    for request in &requests {
        let items: Vec<Item> = requested_ids(request).into_iter().map(item).collect();
        client.fulfil_chunk::<Item>(&mut store, &mut batch, &response(&[]), items, 1000).unwrap();
    }
    assert_eq!(gathered(gather(&mut store, batch)).len(), 401);
}

#[test]
fn api_error_stores_nothing_and_gives_the_key_up() {
    let client = client();
    let mut store: Store<Item> = Store::new();
    let refused = Response { status: 404, headers: Vec::new() };
    let (guard, _) = sent(client.single::<Item>(&mut store, 7, 1000));
    let ticket = waiting(client.single::<Item>(&mut store, 7, 1000));
    assert_eq!(client.fulfil(&mut store, guard, &refused, item(7), 1000).err(), Some(EndpointError::Api));
    assert!(client.try_get::<Item>(&store, &7, 1000).is_none());
    match resume(&mut store, ticket) {
        Step::Failed(e) => assert_eq!(e, EndpointError::Receive),
        _ => panic!("a failure was expected"),
    }
    // the key is free again, and an earlier value stays where it was
    let (guard, _) = sent(client.single::<Item>(&mut store, 7, 1000));
    client.fulfil(&mut store, guard, &response(&[]), item(7), 1000).unwrap();
    let (guard, _) = sent(client.forced().single::<Item>(&mut store, 7, 1000));
    let failed = Response { status: 500, headers: Vec::new() };
    let newer = Item { id: 7, name: String::from("newer") };
    assert_eq!(client.fulfil(&mut store, guard, &failed, newer, 1000).err(), Some(EndpointError::Api));
    assert_eq!(client.try_get::<Item>(&store, &7, 1000).as_deref(), Some(&item(7)));
    let _ = sent(client.forced().single::<Item>(&mut store, 7, 1000));
}

#[test]
fn api_error_fails_a_chunk_and_a_page() {
    let client = client();
    let mut store: Store<Item> = Store::new();
    let refused = Response { status: 503, headers: vec![Header { name: String::from("x-result-total"), value: String::from("9") }] };
    let mut batch = planned(client.many::<Item>(&mut store, vec![1, 2], 1000));
    let r = client.fulfil_chunk::<Item>(&mut store, &mut batch, &refused, vec![item(1), item(2)], 1000);
    assert_eq!(r, Err(EndpointError::Api));
    assert_eq!(batch.unanswered(), 2);
    assert!(batch.result.is_empty());
    assert!(client.try_get::<Item>(&store, &1, 1000).is_none());
    abandon_many(&mut store, batch);
    let batch = planned(client.many::<Item>(&mut store, vec![1, 2], 1000));
    assert_eq!(batch.guards.len(), 2);
    let mut result = Vec::new();
    let r = client.fulfil_page::<Item>(&mut store, &refused, vec![item(1)], &mut result, 1000);
    assert_eq!(r, Err(EndpointError::Api));
    assert!(result.is_empty());
    assert!(client.try_get::<Item>(&store, &1, 1000).is_none());
    let redirected = Response { status: 301, headers: Vec::new() };
    assert_eq!(client.fulfil_page::<Item>(&mut store, &redirected, Vec::new(), &mut result, 1000), Err(EndpointError::Api));
    let created = Response { status: 201, headers: Vec::new() };
    assert_eq!(client.fulfil_page::<Item>(&mut store, &created, vec![item(1)], &mut result, 1000), Ok(0));
    assert!(client.try_get::<Item>(&store, &1, 1000).is_some());
}

#[test]
fn next_page_walks_all_pages_in_order() {
    let client = client();
    let first = client.next_page::<Item>(0, 0).unwrap().unwrap();
    assert!(first.url.ends_with("page=0&page_size=200"));
    let mut asked = Vec::new();
    let mut fetched = 1;
    while let Some(request) = client.next_page::<Item>(450, fetched) {
        asked.push(request.unwrap().url);
        fetched += 1;
    }
    assert_eq!(
        asked,
        vec![
            String::from("https://api.guildwars2.com/v2/items?lang=en&page=1&page_size=200"),
            String::from("https://api.guildwars2.com/v2/items?lang=en&page=2&page_size=200"),
        ]
    );
    assert!(client.next_page::<Item>(200, 1).is_none());
    assert!(client.next_page::<Item>(0, 1).is_none());
    assert!(client.next_page::<Item>(201, 1).is_some());
    assert!(client.next_page::<Item>(201, 2).is_none());
    assert_eq!(
        client.next_page::<Color>(0, 0).map(|r| r.err()),
        Some(Some(EndpointError::UnsupportedEndpointQuery))
    );
}

#[test]
fn type_locale_isolation() {
    let english = client();
    let french = Client { language: Language::Fr, ..client() };
    let mut store: Store<Item> = Store::new();
    let (guard, _) = sent(english.single::<Item>(&mut store, 7, 1000));
    english.fulfil(&mut store, guard, &response(&[]), item(7), 1000).unwrap();
    assert!(english.try_get::<Item>(&store, &7, 1000).is_some());
    assert!(french.try_get::<Item>(&store, &7, 1000).is_none());
    let (_, request) = sent(french.single::<Item>(&mut store, 7, 1000));
    assert_eq!(request.url, "https://api.guildwars2.com/v2/items/7?lang=fr");

    // the list of ids and a fixed document of one endpoint stand under different keys
    let mut lists: Store<Vec<u64>> = Store::new();
    let listing = gw2api_http::cache::unit_key::<Item>(gw2api_http::ValueKind::IdList, Language::En);
    let document = gw2api_http::cache::unit_key::<Item>(gw2api_http::ValueKind::Item, Language::En);
    assert_ne!(listing, document);
    lists.cache.insert(document, Arc::new(vec![1, 2, 3]), 2000);
    let _ = sent(english.ids::<Item>(&mut lists, 1000));

    // two endpoints with one id stand under different keys
    let item_key = gw2api_http::cache::item_key::<Item>(&7, Language::En);
    let color_key = gw2api_http::cache::item_key::<Color>(&7, Language::En);
    assert_ne!(item_key, color_key);
    assert_eq!(item_key.id, color_key.id);

    // a key carries the language only for locale-sensitive endpoints
    assert_eq!(item_key.language, Some(Language::En));
    let build_key = gw2api_http::cache::unit_key::<Build>(gw2api_http::ValueKind::Item, Language::En);
    assert_eq!(build_key.language, None);
    let mut builds: Store<Build> = Store::new();
    let (guard, _) = sent(english.get::<Build>(&mut builds, 1000));
    english.fulfil(&mut builds, guard, &response(&[]), Build { id: 1 }, 1000).unwrap();
    assert_eq!(*done(french.get::<Build>(&mut builds, 1000)), Build { id: 1 });
}

#[test]
fn authentication_gate() {
    let client = client();
    let mut store: Store<Account> = Store::new();
    match client.get::<Account>(&mut store, 1000) {
        Step::Failed(e) => assert_eq!(e, EndpointError::NotAuthenticated),
        _ => panic!("a failure was expected"),
    }
    // the claim was given back: a client with a key becomes the producer
    let keyed = Client { api_key: Some(String::from("SECRET")), ..client.clone() };
    let (guard, request) = sent(keyed.get::<Account>(&mut store, 1000));
    assert_eq!(request.url, "https://api.guildwars2.com/v2/account");
    assert_eq!(
        request.headers,
        vec![
            Header { name: String::from("X-Schema-Version"), value: String::from(VERSION) },
            Header { name: String::from("Authorization"), value: String::from("Bearer SECRET") },
        ]
    );
    // without a key the caller still joins a producer and reads the cache
    let ticket = waiting(client.get::<Account>(&mut store, 1000));
    let account = keyed.fulfil(
        &mut store,
        guard,
        &response(&[]),
        Account { name: String::from("a.1234") },
        1000,
    ).unwrap();
    assert_eq!(*done(resume(&mut store, ticket)), *account);
    assert_eq!(*done(client.get::<Account>(&mut store, 1000)), *account);

    let mut vault: Store<Vault> = Store::new();
    assert_eq!(client.many::<Vault>(&mut vault, vec![1, 2], 1000).err(), Some(EndpointError::NotAuthenticated));
    assert_eq!(client.many::<Vault>(&mut vault, Vec::new(), 1000).map(|b| b.requests.len()).ok(), Some(0));
    assert_eq!(client.page::<Vault>(0, 10).err(), Some(EndpointError::NotAuthenticated));
    assert_eq!(client.get_all_by_ids_all::<Vault>().err(), Some(EndpointError::NotAuthenticated));
    assert_eq!(client.get_all_by_paging::<Vault>().err(), Some(EndpointError::NotAuthenticated));
    assert_eq!(keyed.many::<Vault>(&mut vault, vec![1, 2], 1000).map(|b| b.requests.len()).ok(), Some(1));
}

#[test]
fn unsupported_query_gate() {
    let client = client();
    assert_eq!(client.get_all_by_paging::<Color>().err(), Some(EndpointError::UnsupportedEndpointQuery));
    assert_eq!(client.page::<Color>(0, 200).err(), Some(EndpointError::UnsupportedEndpointQuery));
    assert_eq!(client.get_all_by_ids_all::<Item>().err(), Some(EndpointError::UnsupportedEndpointQuery));
    assert_eq!(
        client.get_all_by_ids_all::<Color>().ok().map(|r| r.url),
        Some(String::from("https://api.guildwars2.com/v2/colors?lang=en&ids=all"))
    );
    assert_eq!(
        client.get_all_by_paging::<Item>().ok().map(|r| r.url),
        Some(String::from("https://api.guildwars2.com/v2/items?lang=en&page=0&page_size=200"))
    );
}

#[test]
fn paging_walk() {
    let client = client();
    let mut store: Store<Item> = Store::new();
    assert_eq!(
        client.page::<Item>(3, 50).ok().map(|r| r.url),
        Some(String::from("https://api.guildwars2.com/v2/items?lang=en&page=3&page_size=50"))
    );
    let mut result = Vec::new();
    let first: Vec<Item> = (1..=200).map(item).collect();
    let total = client.fulfil_page::<Item>(
        &mut store,
        &response(&[("x-result-total", "450")]),
        first,
        &mut result,
        1000,
    ).unwrap();
    assert_eq!(total, 450);
    let pages = remaining_pages(total);
    assert_eq!(pages, 2);
    for page in 0..pages {
        let request = client.page::<Item>(page + 1, 200).ok().unwrap();
        assert!(request.url.ends_with(&format!("page={}&page_size=200", page + 1)));
        let from = 200 * (page as u64 + 1) + 1;
        let items: Vec<Item> = (from..=(from + 199).min(450)).map(item).collect();
        client.fulfil_page::<Item>(&mut store, &response(&[]), items, &mut result, 1000).unwrap();
    }
    assert_eq!(result.len(), 450);
    assert!(client.try_get::<Item>(&store, &450, 1000).is_some());
    assert_eq!(remaining_pages(0), 0);
    assert_eq!(remaining_pages(200), 0);
    assert_eq!(remaining_pages(201), 1);
    assert_eq!(remaining_pages(400), 1);
    assert_eq!(remaining_pages(401), 2);
    assert_eq!(remaining_pages(usize::MAX), (usize::MAX - 200) / 200 + 1);
    let none = client.fulfil_page::<Item>(&mut store, &response(&[]), Vec::new(), &mut result, 1000).unwrap();
    assert_eq!(none, 0);
}
