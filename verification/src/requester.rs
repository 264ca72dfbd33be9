//! The request strategies: what a caller does next, given the cache, the
//! inflight registry and the time.
//!
//! Nothing here sends anything. A step reads and updates the shared state
//! and answers with what is to be done: hand back a value, wait for a
//! producer, or send a request and come back with the response.
use vstd::prelude::*;
use vstd::string::*;
use std::sync::Arc;
use crate::bulk::{
    asked, chunk_taken_in, complete_chunk, settled, shares, sorted_of, stored_all, unsorted,
    Batch,
};
use crate::cache::{
    item_key, item_key_of, lookup, unit_key, unit_key_of, Cache, CacheKey, ValueKind,
};
use crate::endpoint::{
    endpoint_url, format_endpoint_url, item_url, BulkEndpoint, Endpoint, EndpointWithId,
    FixedEndpoint,
};
use crate::error::EndpointError;
use crate::expiry::{expiry_of, get_cache_expiry};
use crate::http::{
    accept, build_request, may_request, request_for, result_total_of, succeeded, Client,
    Request, Response,
};
use crate::ids::EndpointId;
use crate::inflight::{
    after_check, after_end, after_receive, after_remove, check_outcome, index_view, reception,
    well_formed, Guard, Inflight, Outcome, Reception, Slots, Ticket,
};
use crate::paging::{gated, ids_all_query, page_due, page_query, page_response};
use crate::shared::share;

verus! {

/// The state that all requests for values of one type share.
pub struct Store<K> {
    pub cache: Cache<K>,
    pub inflight: Inflight<K>,
}

impl<K> Store<K> {
    /// A store with an empty cache and nothing in flight.
    pub fn new() -> (store: Self)
        ensures
            store.cache@ == Map::<CacheKey, (Arc<K>, i64)>::empty(),
            store.inflight@ == Seq::<Option<crate::inflight::Channel<K>>>::empty(),
            well_formed(store.inflight@),
    {
        Store { cache: Cache::new(), inflight: Inflight::new() }
    }
}

/// Where a caller stands after asking cache and registry for a key.
pub enum Triage<K> {
    /// The cache holds the value.
    Hit(Arc<K>),
    /// A producer is at work; the caller has joined it.
    Join(Ticket),
    /// The caller is the producer.
    Claimed(Guard),
    /// The key is listed but stale.
    Retry,
}

/// What a caller does next.
pub enum Step<K> {
    /// Nothing: here is the value.
    Done(Arc<K>),
    /// Wait until the producer has ended, then `resume` with the ticket.
    Wait(Ticket),
    /// Send the request, then `complete` with the guard and the decoded
    /// response, or `abandon` the guard.
    Send(Guard, Request),
    /// Let others run, then take the same step again.
    Retry,
    /// Give up with this error.
    Failed(EndpointError),
}

/// The first step of a request for all items of an endpoint.
pub enum AllStep<I> {
    /// Send this request for `ids=all`; its response holds every item.
    Everything(Request),
    /// Get the list of ids, of which this is the first step; then ask for
    /// the ids with `many`.
    Listing(Step<Vec<I>>),
    /// Give up with this error.
    Failed(EndpointError),
}

/// What the cache answers: nothing to a forced request, else what a lookup
/// finds.
pub open spec fn cached<K>(force: bool, held: Map<CacheKey, (Arc<K>, i64)>, key: CacheKey, now: i64) -> Option<
    Arc<K>,
> {
    if force {
        None
    } else {
        lookup(held, key, now)
    }
}

/// Where a caller stands after triage.
pub open spec fn triage_of<K>(
    force: bool,
    held: Map<CacheKey, (Arc<K>, i64)>,
    slots: Slots<K>,
    key: CacheKey,
    now: i64,
) -> Triage<K> {
    match cached(force, held, key, now) {
        Some(v) => Triage::Hit(v),
        None => match check_outcome(slots, key) {
            Outcome::JoinExisting(t) => Triage::Join(t),
            Outcome::Claim(g) => Triage::Claimed(g),
            Outcome::Retry => Triage::Retry,
        },
    }
}

/// The registry after triage: untouched on a cache hit, asked otherwise.
pub open spec fn slots_after_triage<K>(
    force: bool,
    held: Map<CacheKey, (Arc<K>, i64)>,
    slots: Slots<K>,
    key: CacheKey,
    now: i64,
) -> Slots<K> {
    if cached(force, held, key, now) is Some {
        slots
    } else {
        after_check(slots, key)
    }
}

/// The registry after a producer has let go of its key and the key has
/// been taken off the list.
pub open spec fn after_abandon<K>(slots: Slots<K>, guard: Guard) -> Slots<K> {
    after_remove(after_end(slots, guard, None), guard.key)
}

/// The registry after a producer has published and the key has been taken
/// off the list.
pub open spec fn after_publish<K>(slots: Slots<K>, guard: Guard, value: Arc<K>) -> Slots<K> {
    after_remove(after_end(slots, guard, Some(value)), guard.key)
}

/// `step` is the first step of a request for `key` at `url`, and
/// `slots_after` is the registry that it leaves.
///
/// A cache hit ends the request. Otherwise the registry decides: join,
/// retry, or produce. A producer gets its request, unless the endpoint is
/// authenticated and there is no api key: then the claim is undone and the
/// request fails with `NotAuthenticated`.
pub open spec fn begins<T: Endpoint, K>(
    step: Step<K>,
    client: Client,
    force: bool,
    held: Map<CacheKey, (Arc<K>, i64)>,
    slots: Slots<K>,
    slots_after: Slots<K>,
    key: CacheKey,
    url: Seq<char>,
    now: i64,
) -> bool {
    match triage_of(force, held, slots, key, now) {
        Triage::Hit(v) => step == Step::Done(v) && slots_after == slots,
        Triage::Join(t) => step == Step::<K>::Wait(t) && slots_after == after_check(slots, key),
        Triage::Retry => step == Step::<K>::Retry && slots_after == slots,
        Triage::Claimed(g) => if may_request(T::AUTHENTICATED, client.api_key) {
            &&& step matches Step::Send(guard, request)
            &&& guard == g
            &&& request_for::<T>(request, client, url, None)
            &&& slots_after == after_check(slots, key)
        } else {
            &&& step == Step::<K>::Failed(EndpointError::NotAuthenticated)
            &&& slots_after == after_abandon(after_check(slots, key), g)
        },
    }
}

/// Reads the cache, unless the request is forced.
pub fn check_cache<K>(force: bool, store: &Store<K>, key: &CacheKey, now: i64) -> (r: Option<
    Arc<K>,
>)
    ensures
        r == cached(force, store.cache@, *key, now),
{
    if !force {
        store.cache.get(key, now)
    } else {
        None
    }
}

/// Asks the registry for a key.
pub fn check_inflight<K>(store: &mut Store<K>, key: CacheKey) -> (out: Outcome)
    ensures
        out == check_outcome(old(store).inflight@, key),
        final(store).inflight@ == after_check(old(store).inflight@, key),
        final(store).cache@ == old(store).cache@,
        well_formed(old(store).inflight@) ==> well_formed(final(store).inflight@),
{
    store.inflight.check(key)
}

/// Asks the cache, then the registry.
pub fn triage<K>(force: bool, store: &mut Store<K>, key: CacheKey, now: i64) -> (t: Triage<K>)
    ensures
        t == triage_of(force, old(store).cache@, old(store).inflight@, key, now),
        final(store).inflight@ == slots_after_triage(
            force,
            old(store).cache@,
            old(store).inflight@,
            key,
            now,
        ),
        final(store).cache@ == old(store).cache@,
        well_formed(old(store).inflight@) ==> well_formed(final(store).inflight@),
{
    if let Some(c) = check_cache(force, store, &key, now) {
        return Triage::Hit(c);
    }
    match check_inflight(store, key) {
        Outcome::JoinExisting(ticket) => Triage::Join(ticket),
        Outcome::Claim(guard) => Triage::Claimed(guard),
        Outcome::Retry => Triage::Retry,
    }
}

/// Lets go of a key without a value and takes it off the list. Those who
/// joined will find the channel closed.
pub fn abandon<K>(store: &mut Store<K>, guard: Guard)
    ensures
        final(store).inflight@ == after_abandon(old(store).inflight@, guard),
        final(store).cache@ == old(store).cache@,
        well_formed(old(store).inflight@) ==> well_formed(final(store).inflight@),
{
    let key = guard.key;
    store.inflight.release(guard);
    store.inflight.remove(&key);
}

/// The first step of a request for one key.
pub fn begin<T: Endpoint, K>(
    client: &Client,
    force: bool,
    store: &mut Store<K>,
    key: CacheKey,
    url: &str,
    now: i64,
) -> (step: Step<K>)
    ensures
        begins::<T, K>(
            step,
            *client,
            force,
            old(store).cache@,
            old(store).inflight@,
            final(store).inflight@,
            key,
            url@,
            now,
        ),
        final(store).cache@ == old(store).cache@,
        well_formed(old(store).inflight@) ==> well_formed(final(store).inflight@),
{
    match triage(force, store, key, now) {
        Triage::Hit(value) => Step::Done(value),
        Triage::Join(ticket) => Step::Wait(ticket),
        Triage::Retry => Step::Retry,
        Triage::Claimed(guard) => {
            match build_request::<T>(client, url, None) {
                Ok(request) => Step::Send(guard, request),
                Err(e) => {
                    abandon(store, guard);
                    Step::Failed(e)
                },
            }
        },
    }
}

/// What a waiting caller does once it has looked for its result: take the
/// value, fail with `Receive` where the producer left nothing, or wait on.
pub open spec fn resumed<K>(found: Reception<K>) -> Step<K> {
    match found {
        Reception::Ready(v) => Step::Done(v),
        Reception::Closed => Step::Failed(EndpointError::Receive),
        Reception::Pending(t) => Step::Wait(t),
    }
}

/// The next step of a caller that joined a producer.
pub fn resume<K>(store: &mut Store<K>, ticket: Ticket) -> (step: Step<K>)
    ensures
        step == resumed(reception(old(store).inflight@, ticket)),
        final(store).inflight@ == after_receive(old(store).inflight@, ticket),
        final(store).cache@ == old(store).cache@,
        well_formed(old(store).inflight@) ==> well_formed(final(store).inflight@),
{
    match store.inflight.receive(ticket) {
        Reception::Ready(value) => Step::Done(value),
        Reception::Closed => Step::Failed(EndpointError::Receive),
        Reception::Pending(ticket) => Step::Wait(ticket),
    }
}

/// Stores a decoded response under `key`, with the expiry that the caller's
/// cache duration and the response's headers give. A response whose status
/// is not one of success is not stored: the result is the error `Api` and
/// the cache stays as it is.
pub fn cache_response<K>(
    cache_duration: u64,
    store: &mut Store<K>,
    key: CacheKey,
    response: &Response,
    value: K,
    now: i64,
) -> (r: Result<Arc<K>, EndpointError>)
    ensures
        final(store).inflight@ == old(store).inflight@,
        match r {
            Ok(result) => {
                &&& succeeded(response.status)
                &&& *result == value
                &&& final(store).cache@ == old(store).cache@.insert(
                    key,
                    (result, expiry_of(now, cache_duration, response.headers@)),
                )
            },
            Err(e) => {
                &&& !succeeded(response.status)
                &&& e == EndpointError::Api
                &&& final(store).cache@ == old(store).cache@
            },
        },
{
    match accept(response.status) {
        Ok(()) => {},
        Err(e) => {
            return Err(e);
        },
    }
    let expires = get_cache_expiry(now, cache_duration, response);
    let result = Arc::new(value);
    store.cache.insert(key, share(&result), expires);
    Ok(result)
}

/// The producer's last step. Where the status of the response is one of
/// success, the decoded value is stored, handed to those who joined, and
/// the key is freed; the value is in the cache before anyone is handed it.
/// Otherwise the request fails with `Api`: the cache stays as it is, the
/// key is given up, and those who joined find the channel closed.
pub fn complete<K>(
    cache_duration: u64,
    store: &mut Store<K>,
    guard: Guard,
    response: &Response,
    value: K,
    now: i64,
) -> (r: Result<Arc<K>, EndpointError>)
    ensures
        well_formed(old(store).inflight@) ==> well_formed(final(store).inflight@),
        match r {
            Ok(result) => {
                &&& succeeded(response.status)
                &&& *result == value
                &&& final(store).cache@ == old(store).cache@.insert(
                    guard.key,
                    (result, expiry_of(now, cache_duration, response.headers@)),
                )
                &&& final(store).inflight@ == after_publish(old(store).inflight@, guard, result)
            },
            Err(e) => {
                &&& !succeeded(response.status)
                &&& e == EndpointError::Api
                &&& final(store).cache@ == old(store).cache@
                &&& final(store).inflight@ == after_abandon(old(store).inflight@, guard)
            },
        },
{
    let key = guard.key;
    match cache_response(cache_duration, store, key, response, value, now) {
        Ok(result) => {
            store.inflight.publish(guard, share(&result));
            store.inflight.remove(&key);
            Ok(result)
        },
        Err(e) => {
            abandon(store, guard);
            Err(e)
        },
    }
}

/// The first step of a request for what `T` holds without an id: its one
/// document, or the list of its ids.
pub fn get_or_ids<T: Endpoint, K>(
    client: &Client,
    force: bool,
    store: &mut Store<K>,
    kind: ValueKind,
    now: i64,
) -> (step: Step<K>)
    ensures
        begins::<T, K>(
            step,
            *client,
            force,
            old(store).cache@,
            old(store).inflight@,
            final(store).inflight@,
            unit_key_of::<T>(kind, client.language),
            endpoint_url(client.host@, T::URL@),
            now,
        ),
        final(store).cache@ == old(store).cache@,
        well_formed(old(store).inflight@) ==> well_formed(final(store).inflight@),
{
    let key = unit_key::<T>(kind, client.language);
    let url = format_endpoint_url(client.host.as_str(), T::URL);
    begin::<T, K>(client, force, store, key, url.as_str(), now)
}

/// A client with a cache duration of its own, forced or not.
#[derive(Clone, Copy, Debug)]
pub struct CachedRequest<'client> {
    pub client: &'client Client,
    pub cache_duration: u64,
    pub force: bool,
}

/// The request strategies. `Client` asks with the server's cache times and
/// reads the cache; `CachedRequest` asks as it was made.
pub trait Requester: Sized {
    /// The client that requests are built for.
    spec fn client_of(&self) -> Client;

    /// The cache duration that overrides the server's, in seconds; 0 for
    /// none.
    spec fn duration_of(&self) -> u64;

    /// Whether requests pass the cache by.
    spec fn is_forced(&self) -> bool;

    /// The client that requests are built for.
    fn client(&self) -> (c: &Client)
        ensures
            *c == self.client_of(),
    ;

    /// The cache duration that overrides the server's, in seconds; 0 for
    /// none.
    fn cache_duration(&self) -> (d: u64)
        ensures
            d == self.duration_of(),
    ;

    /// Whether requests pass the cache by.
    fn force(&self) -> (b: bool)
        ensures
            b == self.is_forced(),
    ;

    /// Overrides the cache duration for all requests made through the
    /// result: their responses are kept for `cache_duration` seconds.
    fn cached(&self, cache_duration: u64) -> (r: CachedRequest<'_>)
        ensures
            *r.client == self.client_of(),
            r.cache_duration == cache_duration,
            r.force == self.is_forced(),
    {
        CachedRequest { client: self.client(), cache_duration, force: self.force() }
    }

    /// Forces a fresh copy from the API: requests made through the result
    /// do not read the cache.
    fn forced(&self) -> (r: CachedRequest<'_>)
        ensures
            *r.client == self.client_of(),
            r.cache_duration == 0,
            r.force,
    {
        CachedRequest { client: self.client(), cache_duration: 0, force: true }
    }

    /// The first step of a call of the fixed endpoint.
    fn get<T: FixedEndpoint>(&self, store: &mut Store<T>, now: i64) -> (step: Step<T>)
        ensures
            begins::<T, T>(
                step,
                self.client_of(),
                self.is_forced(),
                old(store).cache@,
                old(store).inflight@,
                final(store).inflight@,
                unit_key_of::<T>(ValueKind::Item, self.client_of().language),
                endpoint_url(self.client_of().host@, T::URL@),
                now,
            ),
            final(store).cache@ == old(store).cache@,
            well_formed(old(store).inflight@) ==> well_formed(final(store).inflight@),
    {
        get_or_ids::<T, T>(self.client(), self.force(), store, ValueKind::Item, now)
    }

    /// The first step of a request for a single item.
    fn single<T: EndpointWithId>(&self, store: &mut Store<T>, id: T::IdType, now: i64) -> (step:
        Step<T>)
        ensures
            begins::<T, T>(
                step,
                self.client_of(),
                self.is_forced(),
                old(store).cache@,
                old(store).inflight@,
                final(store).inflight@,
                item_key_of::<T>(id, self.client_of().language),
                item_url(self.client_of().host@, T::URL@, id.text()),
                now,
            ),
            final(store).cache@ == old(store).cache@,
            well_formed(old(store).inflight@) ==> well_formed(final(store).inflight@),
    {
        let client = self.client();
        let key = item_key::<T>(&id, client.language);
        let url = T::format_url(client.host.as_str(), &id);
        begin::<T, T>(client, self.force(), store, key, url.as_str(), now)
    }

    /// Retrieves an item from the cache. A forced requester finds nothing.
    fn try_get<T: EndpointWithId>(&self, store: &Store<T>, id: &T::IdType, now: i64) -> (r:
        Option<Arc<T>>)
        ensures
            r == cached(
                self.is_forced(),
                store.cache@,
                item_key_of::<T>(*id, self.client_of().language),
                now,
            ),
    {
        let key = item_key::<T>(id, self.client().language);
        check_cache(self.force(), store, &key, now)
    }

    /// The first step of a request for all available ids.
    fn ids<T: EndpointWithId>(&self, store: &mut Store<Vec<T::IdType>>, now: i64) -> (step: Step<
        Vec<T::IdType>,
    >)
        ensures
            begins::<T, Vec<T::IdType>>(
                step,
                self.client_of(),
                self.is_forced(),
                old(store).cache@,
                old(store).inflight@,
                final(store).inflight@,
                unit_key_of::<T>(ValueKind::IdList, self.client_of().language),
                endpoint_url(self.client_of().host@, T::URL@),
                now,
            ),
            final(store).cache@ == old(store).cache@,
            well_formed(old(store).inflight@) ==> well_formed(final(store).inflight@),
    {
        get_or_ids::<T, Vec<T::IdType>>(
            self.client(),
            self.force(),
            store,
            ValueKind::IdList,
            now,
        )
    }

    /// The first step of a request for multiple ids at once.
    fn many<T: BulkEndpoint>(&self, store: &mut Store<T>, ids: Vec<T::IdType>, now: i64) -> (r:
        Result<Batch<T>, EndpointError>)
        ensures
            final(store).cache@ == old(store).cache@,
            well_formed(old(store).inflight@) ==> well_formed(final(store).inflight@),
            settled::<T>(
                r,
                final(store).inflight@,
                self.client_of(),
                asked::<T>(
                    unsorted(old(store).inflight@),
                    self.is_forced(),
                    old(store).cache@,
                    ids@,
                    self.client_of().language,
                    now,
                ),
            ),
    {
        crate::bulk::many::<T>(self.client(), self.force(), store, ids, now)
    }

    /// The next pass of a request for multiple ids: asks again for the ids
    /// whose keys were stale.
    fn reask<T: BulkEndpoint>(&self, store: &mut Store<T>, batch: Batch<T>, now: i64) -> (r:
        Result<Batch<T>, EndpointError>)
        ensures
            final(store).cache@ == old(store).cache@,
            well_formed(old(store).inflight@) ==> well_formed(final(store).inflight@),
            settled::<T>(
                r,
                final(store).inflight@,
                self.client_of(),
                asked::<T>(
                    sorted_of(batch, old(store).inflight@),
                    self.is_forced(),
                    old(store).cache@,
                    batch.retry@,
                    self.client_of().language,
                    now,
                ),
            ),
    {
        crate::bulk::reask::<T>(self.client(), self.force(), store, batch, now)
    }

    /// The request for one page of an endpoint. Pages are counted from 0.
    fn page<T: BulkEndpoint>(&self, index: usize, page_size: u8) -> (r: Result<
        Request,
        EndpointError,
    >)
        ensures
            gated::<T>(
                r,
                T::PAGING,
                self.client_of(),
                page_query(index as nat, page_size as nat),
            ),
    {
        crate::paging::page::<T>(self.client(), index, page_size)
    }

    /// The next request of a walk through all pages, once `fetched` pages
    /// are taken in and the first reported `total` items.
    fn next_page<T: BulkEndpoint>(&self, total: usize, fetched: usize) -> (r: Option<
        Result<Request, EndpointError>,
    >)
        ensures
            match page_due(total as nat, fetched as nat) {
                Some(index) => r matches Some(request) && gated::<T>(
                    request,
                    T::PAGING,
                    self.client_of(),
                    page_query(index, 200),
                ),
                None => r is None,
            },
    {
        crate::paging::next_page::<T>(self.client(), total, fetched)
    }

    /// The first step of a request for all items, by the most efficient
    /// way there is: by `ids=all` where the endpoint takes it, else by
    /// asking for the list of ids, which are then asked for with `many`.
    /// Pages are never chosen: they pass the cache by.
    fn all<T: BulkEndpoint>(&self, lists: &mut Store<Vec<T::IdType>>, now: i64) -> (step: AllStep<
        T::IdType,
    >)
        ensures
            final(lists).cache@ == old(lists).cache@,
            well_formed(old(lists).inflight@) ==> well_formed(final(lists).inflight@),
            if T::ALL {
                &&& final(lists).inflight@ == old(lists).inflight@
                &&& match step {
                    AllStep::Everything(request) => gated::<T>(
                        Ok(request),
                        true,
                        self.client_of(),
                        ids_all_query(),
                    ),
                    AllStep::Failed(e) => gated::<T>(
                        Err(e),
                        true,
                        self.client_of(),
                        ids_all_query(),
                    ),
                    AllStep::Listing(_) => false,
                }
            } else {
                &&& step matches AllStep::Listing(first)
                &&& begins::<T, Vec<T::IdType>>(
                    first,
                    self.client_of(),
                    self.is_forced(),
                    old(lists).cache@,
                    old(lists).inflight@,
                    final(lists).inflight@,
                    unit_key_of::<T>(ValueKind::IdList, self.client_of().language),
                    endpoint_url(self.client_of().host@, T::URL@),
                    now,
                )
            },
    {
        if T::ALL {
            match self.get_all_by_ids_all::<T>() {
                Ok(request) => AllStep::Everything(request),
                Err(e) => AllStep::Failed(e),
            }
        } else {
            AllStep::Listing(self.get_all_by_requesting_ids::<T>(lists, now))
        }
    }

    /// The request for all items at once, by `ids=all`.
    fn get_all_by_ids_all<T: BulkEndpoint>(&self) -> (r: Result<Request, EndpointError>)
        ensures
            gated::<T>(r, T::ALL, self.client_of(), ids_all_query()),
    {
        crate::paging::get_all_by_ids_all::<T>(self.client())
    }

    /// The first request of a walk through all pages.
    fn get_all_by_paging<T: BulkEndpoint>(&self) -> (r: Result<Request, EndpointError>)
        ensures
            gated::<T>(r, T::PAGING, self.client_of(), page_query(0, 200)),
    {
        crate::paging::get_all_by_paging::<T>(self.client())
    }

    /// The first step of a request for all items by their ids: it asks for
    /// the list of ids. The ids are then asked for with `many`.
    fn get_all_by_requesting_ids<T: BulkEndpoint>(
        &self,
        lists: &mut Store<Vec<T::IdType>>,
        now: i64,
    ) -> (step: Step<Vec<T::IdType>>)
        ensures
            begins::<T, Vec<T::IdType>>(
                step,
                self.client_of(),
                self.is_forced(),
                old(lists).cache@,
                old(lists).inflight@,
                final(lists).inflight@,
                unit_key_of::<T>(ValueKind::IdList, self.client_of().language),
                endpoint_url(self.client_of().host@, T::URL@),
                now,
            ),
            final(lists).cache@ == old(lists).cache@,
            well_formed(old(lists).inflight@) ==> well_formed(final(lists).inflight@),
    {
        self.ids::<T>(lists, now)
    }

    /// The producer's step for one chunk of a bulk request, with this
    /// requester's cache duration. A response whose status is not one of
    /// success fails with `Api` and changes nothing.
    fn fulfil_chunk<T: BulkEndpoint>(
        &self,
        store: &mut Store<T>,
        batch: &mut Batch<T>,
        response: &Response,
        items: Vec<T>,
        now: i64,
    ) -> (r: Result<(), EndpointError>)
        ensures
            final(batch).tickets@ == old(batch).tickets@,
            final(batch).claimed@ == old(batch).claimed@,
            final(batch).requests@ == old(batch).requests@,
            final(batch).retry@ == old(batch).retry@,
            well_formed(old(store).inflight@) ==> well_formed(final(store).inflight@),
            match r {
                Ok(_) => succeeded(response.status) && chunk_taken_in::<T>(
                    *old(batch),
                    *final(batch),
                    old(store).cache@,
                    final(store).cache@,
                    old(store).inflight@,
                    final(store).inflight@,
                    items@,
                    self.client_of().language,
                    expiry_of(now, self.duration_of(), response.headers@),
                ),
                Err(e) => {
                    &&& !succeeded(response.status)
                    &&& e == EndpointError::Api
                    &&& final(batch).result@ == old(batch).result@
                    &&& final(batch).guards@ == old(batch).guards@
                    &&& index_view(final(batch).listing@) == index_view(old(batch).listing@)
                    &&& final(store).cache@ == old(store).cache@
                    &&& final(store).inflight@ == old(store).inflight@
                },
            },
    {
        complete_chunk::<T>(
            self.client(),
            self.cache_duration(),
            store,
            batch,
            response,
            items,
            now,
        )
    }

    /// Takes in the decoded response to a page or to `ids=all`, with this
    /// requester's cache duration. Returns the number of items that the
    /// server has in all. A response whose status is not one of success
    /// fails with `Api` and changes nothing.
    fn fulfil_page<T: BulkEndpoint>(
        &self,
        store: &mut Store<T>,
        response: &Response,
        items: Vec<T>,
        result: &mut Vec<Arc<T>>,
        now: i64,
    ) -> (r: Result<usize, EndpointError>)
        ensures
            final(store).inflight@ == old(store).inflight@,
            match r {
                Ok(count) => {
                    &&& succeeded(response.status)
                    &&& count == result_total_of(response.headers@)
                    &&& final(result)@.len() == old(result)@.len() + items@.len()
                    &&& final(result)@.take(old(result)@.len() as int) == old(result)@
                    &&& shares(final(result)@.skip(old(result)@.len() as int), items@)
                    &&& final(store).cache@ == stored_all::<T>(
                        old(store).cache@,
                        final(result)@.skip(old(result)@.len() as int),
                        self.client_of().language,
                        expiry_of(now, self.duration_of(), response.headers@),
                    )
                },
                Err(e) => {
                    &&& !succeeded(response.status)
                    &&& e == EndpointError::Api
                    &&& final(result)@ == old(result)@
                    &&& final(store).cache@ == old(store).cache@
                },
            },
    {
        page_response::<T>(
            self.client(),
            self.cache_duration(),
            store,
            response,
            items,
            result,
            now,
        )
    }

    /// The producer's last step, with this requester's cache duration. A
    /// response whose status is not one of success fails with `Api`,
    /// changes nothing in the cache and gives the key up.
    fn fulfil<K>(&self, store: &mut Store<K>, guard: Guard, response: &Response, value: K, now: i64) -> (r:
        Result<Arc<K>, EndpointError>)
        ensures
            well_formed(old(store).inflight@) ==> well_formed(final(store).inflight@),
            match r {
                Ok(result) => {
                    &&& succeeded(response.status)
                    &&& *result == value
                    &&& final(store).cache@ == old(store).cache@.insert(
                        guard.key,
                        (result, expiry_of(now, self.duration_of(), response.headers@)),
                    )
                    &&& final(store).inflight@ == after_publish(
                        old(store).inflight@,
                        guard,
                        result,
                    )
                },
                Err(e) => {
                    &&& !succeeded(response.status)
                    &&& e == EndpointError::Api
                    &&& final(store).cache@ == old(store).cache@
                    &&& final(store).inflight@ == after_abandon(old(store).inflight@, guard)
                },
            },
    {
        complete(self.cache_duration(), store, guard, response, value, now)
    }
}

impl Requester for Client {
    open spec fn client_of(&self) -> Client {
        *self
    }

    open spec fn duration_of(&self) -> u64 {
        0
    }

    open spec fn is_forced(&self) -> bool {
        false
    }

    fn client(&self) -> (c: &Client) {
        self
    }

    fn cache_duration(&self) -> (d: u64) {
        0
    }

    fn force(&self) -> (b: bool) {
        false
    }
}

impl<'client> Requester for CachedRequest<'client> {
    open spec fn client_of(&self) -> Client {
        *self.client
    }

    open spec fn duration_of(&self) -> u64 {
        self.cache_duration
    }

    open spec fn is_forced(&self) -> bool {
        self.force
    }

    fn client(&self) -> (c: &Client) {
        self.client
    }

    fn cache_duration(&self) -> (d: u64) {
        self.cache_duration
    }

    fn force(&self) -> (b: bool) {
        self.force
    }
}

} // verus!
