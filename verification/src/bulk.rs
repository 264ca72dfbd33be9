//! Requests for many ids at once.
//!
//! The guards of a request stand in the order of their claims; a hash map
//! names, for the key of each guard that is still to be answered, its
//! place among them.
//!
//! A bulk request goes through four phases. Values that the cache holds are
//! taken from it. Each id that is left is asked for in the registry: its
//! producer is joined, or it is claimed. The claimed ids are split into
//! chunks of at most 200, one request each. At the end the values of the
//! joined producers are collected.
use vstd::prelude::*;
use vstd::string::*;
use std::collections::HashMap;
use std::sync::Arc;
use crate::cache::{item_key, item_key_of, lookup, CacheKey};
use crate::chunks::{chunk_count, id_texts, join_ids, joined_chunks};
use crate::endpoint::{endpoint_url, format_endpoint_url, BulkEndpoint, EndpointWithId};
use crate::error::EndpointError;
use crate::expiry::{expiry_of, get_cache_expiry};
use crate::shared::share;
use crate::http::{
    accept, build_request, may_request, request_for, succeeded, Client, Request, Response,
};
use crate::ids::EndpointId;
use crate::inflight::{
    after_cancel, after_check, after_receive, check_outcome, index_view, listing_get,
    listing_set, reception, well_formed, Guard, Listing, Outcome, Reception, Slots, Ticket,
};
use crate::requester::{abandon, after_abandon, after_publish, check_inflight, Store};

verus! {

/// The cached values of a list of ids, in the order of the ids.
pub open spec fn hits<T: EndpointWithId>(
    held: Map<CacheKey, (Arc<T>, i64)>,
    ids: Seq<T::IdType>,
    language: crate::language::Language,
    now: i64,
) -> Seq<Arc<T>>
    decreases ids.len(),
{
    if ids.len() == 0 {
        Seq::empty()
    } else {
        let before = hits::<T>(held, ids.drop_last(), language, now);
        match lookup(held, item_key_of::<T>(ids.last(), language), now) {
            Some(v) => before.push(v),
            None => before,
        }
    }
}

/// The ids of a list for which the cache holds nothing, in order.
pub open spec fn misses<T: EndpointWithId>(
    held: Map<CacheKey, (Arc<T>, i64)>,
    ids: Seq<T::IdType>,
    language: crate::language::Language,
    now: i64,
) -> Seq<T::IdType>
    decreases ids.len(),
{
    if ids.len() == 0 {
        Seq::empty()
    } else {
        let before = misses::<T>(held, ids.drop_last(), language, now);
        match lookup(held, item_key_of::<T>(ids.last(), language), now) {
            Some(v) => before,
            None => before.push(ids.last()),
        }
    }
}

/// Every id is a hit or a miss.
pub proof fn lemma_hits_and_misses<T: EndpointWithId>(
    held: Map<CacheKey, (Arc<T>, i64)>,
    ids: Seq<T::IdType>,
    language: crate::language::Language,
    now: i64,
)
    ensures
        hits::<T>(held, ids, language, now).len() + misses::<T>(held, ids, language, now).len()
            == ids.len(),
    decreases ids.len(),
{
    if ids.len() > 0 {
        lemma_hits_and_misses::<T>(held, ids.drop_last(), language, now);
    }
}

/// Moves the cached values of `ids` to the end of `result` and returns the
/// ids that are not in the cache.
pub fn extract_many_from_cache<T: EndpointWithId>(
    client: &Client,
    store: &Store<T>,
    ids: Vec<T::IdType>,
    result: &mut Vec<Arc<T>>,
    now: i64,
) -> (rest: Vec<T::IdType>)
    ensures
        final(result)@ == old(result)@ + hits::<T>(store.cache@, ids@, client.language, now),
        rest@ == misses::<T>(store.cache@, ids@, client.language, now),
{
    let ghost all = ids@;
    let ghost start = result@;
    let mut rest: Vec<T::IdType> = Vec::new();
    for id in it: ids
        invariant
            it.seq() == all,
            result@ == start + hits::<T>(store.cache@, all.take(it.index()), client.language, now),
            rest@ == misses::<T>(store.cache@, all.take(it.index()), client.language, now),
    {
        proof {
            let upto = all.take(it.index() + 1);
            assert(upto.drop_last() =~= all.take(it.index()));
            assert(upto.last() == id);
        }
        let key = item_key::<T>(&id, client.language);
        if let Some(cached) = store.cache.get(&key, now) {
            result.push(cached);
        } else {
            rest.push(id);
        }
    }
    assert(all.take(all.len() as int) =~= all);
    rest
}

/// Where a list of ids stands after each has been asked for in the
/// registry.
pub struct Enlisted<T: EndpointWithId> {
    /// The registry after the last id.
    pub slots: Slots<T>,
    /// One ticket for each id whose producer was joined.
    pub tickets: Seq<Ticket>,
    /// One guard for each id that was claimed.
    pub guards: Seq<Guard>,
    /// The ids that were claimed.
    pub claimed: Seq<T::IdType>,
    /// The ids whose keys were stale.
    pub retry: Seq<T::IdType>,
}

/// Asks the registry for each id in turn.
pub open spec fn enlist<T: EndpointWithId>(
    slots: Slots<T>,
    ids: Seq<T::IdType>,
    language: crate::language::Language,
) -> Enlisted<T>
    decreases ids.len(),
{
    if ids.len() == 0 {
        Enlisted {
            slots,
            tickets: Seq::empty(),
            guards: Seq::empty(),
            claimed: Seq::empty(),
            retry: Seq::empty(),
        }
    } else {
        let prev = enlist::<T>(slots, ids.drop_last(), language);
        let key = item_key_of::<T>(ids.last(), language);
        let next = after_check(prev.slots, key);
        match check_outcome(prev.slots, key) {
            Outcome::JoinExisting(t) => Enlisted {
                slots: next,
                tickets: prev.tickets.push(t),
                ..prev
            },
            Outcome::Claim(g) => Enlisted {
                slots: next,
                guards: prev.guards.push(g),
                claimed: prev.claimed.push(ids.last()),
                ..prev
            },
            Outcome::Retry => Enlisted { slots: next, retry: prev.retry.push(ids.last()), ..prev },
        }
    }
}

/// Every id is joined, claimed or sent back; guards and claimed ids go
/// together.
pub proof fn lemma_enlist_counts<T: EndpointWithId>(
    slots: Slots<T>,
    ids: Seq<T::IdType>,
    language: crate::language::Language,
)
    ensures
        ({
            let e = enlist::<T>(slots, ids, language);
            &&& e.tickets.len() + e.claimed.len() + e.retry.len() == ids.len()
            &&& e.guards.len() == e.claimed.len()
            &&& well_formed(slots) ==> well_formed(e.slots)
        }),
    decreases ids.len(),
{
    if ids.len() > 0 {
        lemma_enlist_counts::<T>(slots, ids.drop_last(), language);
        let prev = enlist::<T>(slots, ids.drop_last(), language);
        if well_formed(slots) {
            crate::inflight::lemma_check_keeps_order(
                prev.slots,
                item_key_of::<T>(ids.last(), language),
            );
        }
    }
}

/// What one bulk request has gathered and still has to do.
pub struct Batch<T: EndpointWithId> {
    /// The values so far.
    pub result: Vec<Arc<T>>,
    /// The tickets of the producers that were joined.
    pub tickets: Vec<Ticket>,
    /// The guards of the ids that were claimed, in the order of the claims.
    pub guards: Vec<Guard>,
    /// Which guards are still to be answered: a hash map that names, for
    /// the key of each of them, its place among the guards.
    pub listing: HashMap<u64, Vec<Listing>>,
    /// The ids that were claimed, over all passes.
    pub claimed: Vec<T::IdType>,
    /// The requests to send, one for each chunk of claimed ids. They are
    /// built once, when no id is left to ask for again.
    pub requests: Vec<Request>,
    /// The ids whose keys were stale: to be asked for again with `reask`.
    pub retry: Vec<T::IdType>,
}

fn enlist_ids<T: EndpointWithId>(
    client: &Client,
    store: &mut Store<T>,
    ids: Vec<T::IdType>,
    tickets: &mut Vec<Ticket>,
    guards: &mut Vec<Guard>,
    retry: &mut Vec<T::IdType>,
) -> (claimed: Vec<T::IdType>)
    requires
        old(tickets)@.len() == 0,
        old(guards)@.len() == 0,
        old(retry)@.len() == 0,
    ensures
        ({
            let e = enlist::<T>(old(store).inflight@, ids@, client.language);
            &&& final(store).inflight@ == e.slots
            &&& final(tickets)@ == e.tickets
            &&& final(guards)@ == e.guards
            &&& final(retry)@ == e.retry
            &&& claimed@ == e.claimed
        }),
        final(store).cache@ == old(store).cache@,
{
    let ghost all = ids@;
    let ghost slots = store.inflight@;
    let ghost held = store.cache@;
    let mut claimed: Vec<T::IdType> = Vec::new();
    assert(tickets@ =~= Seq::<Ticket>::empty());
    assert(guards@ =~= Seq::<Guard>::empty());
    assert(retry@ =~= Seq::<T::IdType>::empty());
    assert(claimed@ =~= Seq::<T::IdType>::empty());
    for id in it: ids
        invariant
            it.seq() == all,
            store.cache@ == held,
            ({
                let e = enlist::<T>(slots, all.take(it.index()), client.language);
                &&& store.inflight@ == e.slots
                &&& tickets@ == e.tickets
                &&& guards@ == e.guards
                &&& retry@ == e.retry
                &&& claimed@ == e.claimed
            }),
    {
        proof {
            let upto = all.take(it.index() + 1);
            assert(upto.drop_last() =~= all.take(it.index()));
            assert(upto.last() == id);
        }
        let key = item_key::<T>(&id, client.language);
        match check_inflight(store, key) {
            Outcome::JoinExisting(ticket) => {
                tickets.push(ticket);
            },
            Outcome::Claim(guard) => {
                guards.push(guard);
                claimed.push(id);
            },
            Outcome::Retry => {
                retry.push(id);
            },
        }
    }
    assert(all.take(all.len() as int) =~= all);
    claimed
}

/// The guard at place `p` is still to be answered: the index names its
/// place for its key.
pub open spec fn is_live(guards: Seq<Guard>, index: Map<CacheKey, usize>, p: int) -> bool {
    &&& 0 <= p < guards.len()
    &&& index.contains_key(guards[p].key)
    &&& index[guards[p].key] == p
}

/// The registry after every guard that is still to be answered has been
/// abandoned, in the order of the guards.
pub open spec fn abandon_live<K>(
    slots: Slots<K>,
    guards: Seq<Guard>,
    index: Map<CacheKey, usize>,
) -> Slots<K>
    decreases guards.len(),
{
    if guards.len() == 0 {
        slots
    } else {
        let before = abandon_live(slots, guards.drop_last(), index);
        if is_live(guards, index, guards.len() - 1) {
            after_abandon(before, guards.last())
        } else {
            before
        }
    }
}

/// The index after guards have been put at the places from `from` on.
pub open spec fn indexed(index: Map<CacheKey, usize>, from: nat, guards: Seq<Guard>) -> Map<
    CacheKey,
    usize,
>
    decreases guards.len(),
{
    if guards.len() == 0 {
        index
    } else {
        indexed(index, from, guards.drop_last()).insert(
            guards.last().key,
            (from + guards.len() - 1) as usize,
        )
    }
}

/// The guard that is still to be answered for `key`, if there is one.
pub open spec fn live_guard(guards: Seq<Guard>, index: Map<CacheKey, usize>, key: CacheKey) -> Option<
    int,
> {
    if index.contains_key(key) && index[key] < guards.len() && guards[index[key] as int].key
        == key {
        Some(index[key] as int)
    } else {
        None
    }
}

/// The registry after every ticket of a list has been given back.
pub open spec fn cancel_all<K>(slots: Slots<K>, tickets: Seq<Ticket>) -> Slots<K>
    decreases tickets.len(),
{
    if tickets.len() == 0 {
        slots
    } else {
        after_cancel(cancel_all(slots, tickets.drop_last()), tickets.last())
    }
}

/// Abandons every guard of a list that is still to be answered.
pub fn abandon_guards<K>(
    store: &mut Store<K>,
    guards: Vec<Guard>,
    listing: &HashMap<u64, Vec<Listing>>,
)
    ensures
        final(store).inflight@ == abandon_live(
            old(store).inflight@,
            guards@,
            index_view(listing@),
        ),
        final(store).cache@ == old(store).cache@,
        well_formed(old(store).inflight@) ==> well_formed(final(store).inflight@),
{
    let ghost all = guards@;
    let ghost slots = store.inflight@;
    let ghost held = store.cache@;
    let ghost index = index_view(listing@);
    let total = guards.len();
    let mut place: usize = 0;
    for guard in it: guards
        invariant
            it.seq() == all,
            all.len() == total,
            place == it.index(),
            index == index_view(listing@),
            store.cache@ == held,
            store.inflight@ == abandon_live(slots, all.take(it.index()), index),
            well_formed(slots) ==> well_formed(store.inflight@),
    {
        proof {
            let upto = all.take(it.index() + 1);
            assert(upto.drop_last() =~= all.take(it.index()));
            assert(upto.last() == guard);
            assert(upto[upto.len() - 1] == guard);
        }
        let live = match listing_get(listing, &guard.key) {
            Some(p) => p == place,
            None => false,
        };
        if live {
            abandon(store, guard);
        }
        place = place + 1;
    }
    assert(all.take(all.len() as int) =~= all);
}

/// Gives every ticket of a list back.
pub fn cancel_tickets<K>(store: &mut Store<K>, tickets: Vec<Ticket>)
    ensures
        final(store).inflight@ == cancel_all(old(store).inflight@, tickets@),
        final(store).cache@ == old(store).cache@,
        well_formed(old(store).inflight@) ==> well_formed(final(store).inflight@),
{
    let ghost all = tickets@;
    let ghost slots = store.inflight@;
    let ghost held = store.cache@;
    for ticket in it: tickets
        invariant
            it.seq() == all,
            store.cache@ == held,
            store.inflight@ == cancel_all(slots, all.take(it.index())),
            well_formed(slots) ==> well_formed(store.inflight@),
    {
        proof {
            let upto = all.take(it.index() + 1);
            assert(upto.drop_last() =~= all.take(it.index()));
            assert(upto.last() == ticket);
        }
        store.inflight.cancel(ticket);
    }
    assert(all.take(all.len() as int) =~= all);
}

/// The query parameter that asks for a chunk of ids.
pub open spec fn ids_query(chunk: Seq<char>) -> Seq<char> {
    seq!['i', 'd', 's', '='] + chunk
}

/// `requests` are the bulk requests for the claimed ids: one for each chunk
/// of at most 200 ids, in order, each asking for its chunk by `ids=`.
pub open spec fn bulk_requests<T: EndpointWithId>(
    requests: Seq<Request>,
    client: Client,
    claimed: Seq<T::IdType>,
) -> bool {
    &&& requests.len() == chunk_count(claimed.len())
    &&& forall|k: int|
        0 <= k < requests.len() ==> request_for::<T>(
            #[trigger] requests[k],
            client,
            endpoint_url(client.host@, T::URL@),
            Some(ids_query(joined_chunks(id_texts(claimed))[k])),
        )
}

/// The ids that a bulk request asks the registry for: all of them where it
/// is forced, else those that the cache does not hold.
pub open spec fn sought<T: EndpointWithId>(
    force: bool,
    held: Map<CacheKey, (Arc<T>, i64)>,
    ids: Seq<T::IdType>,
    language: crate::language::Language,
    now: i64,
) -> Seq<T::IdType> {
    if force {
        ids
    } else {
        misses::<T>(held, ids, language, now)
    }
}

/// The values that a bulk request takes from the cache: none where it is
/// forced.
pub open spec fn found<T: EndpointWithId>(
    force: bool,
    held: Map<CacheKey, (Arc<T>, i64)>,
    ids: Seq<T::IdType>,
    language: crate::language::Language,
    now: i64,
) -> Seq<Arc<T>> {
    if force {
        Seq::empty()
    } else {
        hits::<T>(held, ids, language, now)
    }
}

/// Builds the requests for the claimed ids, one for each chunk.
fn bulk<T: EndpointWithId>(client: &Client, claimed: &Vec<T::IdType>) -> (r: Result<
    Vec<Request>,
    EndpointError,
>)
    ensures
        match r {
            Ok(requests) => bulk_requests::<T>(requests@, *client, claimed@) && (claimed@.len() == 0
                || may_request(T::AUTHENTICATED, client.api_key)),
            Err(e) => e == EndpointError::NotAuthenticated && claimed@.len() > 0 && !may_request(
                T::AUTHENTICATED,
                client.api_key,
            ),
        },
{
    let url = format_endpoint_url(client.host.as_str(), T::URL);
    let chunks = join_ids(claimed.as_slice());
    let ghost texts = joined_chunks(id_texts(claimed@));
    let mut requests: Vec<Request> = Vec::new();
    let mut k: usize = 0;
    while k < chunks.len()
        invariant
            k <= chunks.len(),
            chunks.len() == chunk_count(claimed@.len()),
            chunks@.map_values(|s: String| s@) == texts,
            url@ == endpoint_url(client.host@, T::URL@),
            k > 0 ==> may_request(T::AUTHENTICATED, client.api_key),
            requests.len() == k,
            forall|j: int|
                0 <= j < k ==> request_for::<T>(
                    #[trigger] requests@[j],
                    *client,
                    url@,
                    Some(ids_query(texts[j])),
                ),
        decreases chunks.len() - k,
    {
        proof {
            reveal_strlit("ids=");
            assert(chunks@.map_values(|s: String| s@)[k as int] == chunks@[k as int]@);
        }
        let mut query = String::from_str("ids=");
        query.append(chunks[k].as_str());
        assert(query@ =~= ids_query(texts[k as int]));
        match build_request::<T>(client, url.as_str(), Some(query)) {
            Ok(request) => {
                requests.push(request);
            },
            Err(e) => {
                return Err(e);
            },
        }
        k += 1;
    }
    Ok(requests)
}

/// Where a bulk request stands after its passes: what it took from the
/// cache, whom it joined, what it claimed, and which ids it has to ask for
/// again.
pub struct Sorted<T: EndpointWithId> {
    /// The registry.
    pub slots: Slots<T>,
    /// The values taken from the cache.
    pub result: Seq<Arc<T>>,
    /// The tickets of the producers that were joined.
    pub tickets: Seq<Ticket>,
    /// The guards of the claimed ids.
    pub guards: Seq<Guard>,
    /// Which guards are still to be answered.
    pub index: Map<CacheKey, usize>,
    /// The claimed ids.
    pub claimed: Seq<T::IdType>,
    /// The ids whose keys were stale in the last pass.
    pub retry: Seq<T::IdType>,
}

/// A bulk request before its first pass.
pub open spec fn unsorted<T: EndpointWithId>(slots: Slots<T>) -> Sorted<T> {
    Sorted {
        slots,
        result: Seq::empty(),
        tickets: Seq::empty(),
        guards: Seq::empty(),
        index: Map::empty(),
        claimed: Seq::empty(),
        retry: Seq::empty(),
    }
}

/// One pass over a list of ids: what the cache holds is taken from it,
/// unless the request is forced, and every other id is asked for in the
/// registry. What earlier passes gathered stays; the ids to ask for again
/// are those of this pass.
pub open spec fn asked<T: EndpointWithId>(
    before: Sorted<T>,
    force: bool,
    held: Map<CacheKey, (Arc<T>, i64)>,
    ids: Seq<T::IdType>,
    language: crate::language::Language,
    now: i64,
) -> Sorted<T> {
    let e = enlist::<T>(before.slots, sought::<T>(force, held, ids, language, now), language);
    Sorted {
        slots: e.slots,
        result: before.result + found::<T>(force, held, ids, language, now),
        tickets: before.tickets + e.tickets,
        guards: before.guards + e.guards,
        index: indexed(before.index, before.guards.len(), e.guards),
        claimed: before.claimed + e.claimed,
        retry: e.retry,
    }
}

/// How many ids a bulk request has dealt with or still has to ask for.
pub open spec fn accounted<T: EndpointWithId>(s: Sorted<T>) -> nat {
    s.result.len() + s.tickets.len() + s.claimed.len() + s.retry.len()
}

/// A pass loses no id: each id of the pass is answered by the cache,
/// joined, claimed or marked to be asked for again. Guards and claimed ids
/// go together.
pub proof fn lemma_pass_accounts<T: EndpointWithId>(
    before: Sorted<T>,
    force: bool,
    held: Map<CacheKey, (Arc<T>, i64)>,
    ids: Seq<T::IdType>,
    language: crate::language::Language,
    now: i64,
)
    ensures
        accounted(asked::<T>(before, force, held, ids, language, now)) + before.retry.len()
            == accounted(before) + ids.len(),
        before.guards.len() == before.claimed.len() ==> asked::<T>(
            before,
            force,
            held,
            ids,
            language,
            now,
        ).guards.len() == asked::<T>(before, force, held, ids, language, now).claimed.len(),
        well_formed(before.slots) ==> well_formed(
            asked::<T>(before, force, held, ids, language, now).slots,
        ),
{
    lemma_hits_and_misses::<T>(held, ids, language, now);
    lemma_enlist_counts::<T>(
        before.slots,
        sought::<T>(force, held, ids, language, now),
        language,
    );
}

/// `batch` holds what `sorted` says, apart from its requests.
pub open spec fn holds_sorted<T: EndpointWithId>(batch: Batch<T>, sorted: Sorted<T>) -> bool {
    &&& batch.result@ == sorted.result
    &&& batch.tickets@ == sorted.tickets
    &&& batch.guards@ == sorted.guards
    &&& index_view(batch.listing@) == sorted.index
    &&& batch.claimed@ == sorted.claimed
    &&& batch.retry@ == sorted.retry
}

/// What a batch says of where its request stands, over the given registry.
pub open spec fn sorted_of<T: EndpointWithId>(batch: Batch<T>, slots: Slots<T>) -> Sorted<T> {
    Sorted {
        slots,
        result: batch.result@,
        tickets: batch.tickets@,
        guards: batch.guards@,
        index: index_view(batch.listing@),
        claimed: batch.claimed@,
        retry: batch.retry@,
    }
}

/// `r` and `slots_after` are what a pass that left `sorted` comes to.
///
/// Where ids are claimed and no request can be built for them, the claims
/// and the tickets are given back and the request fails with
/// `NotAuthenticated`. Otherwise the batch holds what the passes gathered.
/// Its requests are built once: there are none while ids are left to ask
/// for again, and then one for each chunk of up to 200 of all claimed ids.
pub open spec fn settled<T: EndpointWithId>(
    r: Result<Batch<T>, EndpointError>,
    slots_after: Slots<T>,
    client: Client,
    sorted: Sorted<T>,
) -> bool {
    if sorted.claimed.len() == 0 || may_request(T::AUTHENTICATED, client.api_key) {
        &&& r matches Ok(batch)
        &&& holds_sorted(batch, sorted)
        &&& slots_after == sorted.slots
        &&& if sorted.retry.len() == 0 {
            bulk_requests::<T>(batch.requests@, client, sorted.claimed)
        } else {
            batch.requests@.len() == 0
        }
    } else {
        &&& r matches Err(error)
        &&& error == EndpointError::NotAuthenticated
        &&& slots_after == cancel_all(
            abandon_live(sorted.slots, sorted.guards, sorted.index),
            sorted.tickets,
        )
    }
}

/// One pass: takes `ids` through cache and registry and adds what comes
/// of it to the batch.
fn ask<T: EndpointWithId>(
    client: &Client,
    force: bool,
    store: &mut Store<T>,
    batch: &mut Batch<T>,
    ids: Vec<T::IdType>,
    now: i64,
)
    requires
        old(batch).retry@.len() == 0,
    ensures
        final(store).cache@ == old(store).cache@,
        well_formed(old(store).inflight@) ==> well_formed(final(store).inflight@),
        final(batch).requests@ == old(batch).requests@,
        holds_sorted(
            *final(batch),
            asked::<T>(
                sorted_of(*old(batch), old(store).inflight@),
                force,
                old(store).cache@,
                ids@,
                client.language,
                now,
            ),
        ),
        final(store).inflight@ == asked::<T>(
            sorted_of(*old(batch), old(store).inflight@),
            force,
            old(store).cache@,
            ids@,
            client.language,
            now,
        ).slots,
{
    let ghost slots = store.inflight@;
    let rest = if !force {
        extract_many_from_cache::<T>(client, store, ids, &mut batch.result, now)
    } else {
        assert(batch.result@ + Seq::<Arc<T>>::empty() =~= batch.result@);
        ids
    };
    assert(rest@ == sought::<T>(force, old(store).cache@, ids@, client.language, now));
    proof {
        lemma_enlist_counts::<T>(slots, rest@, client.language);
    }
    let mut tickets: Vec<Ticket> = Vec::new();
    let mut guards: Vec<Guard> = Vec::new();
    let mut retry: Vec<T::IdType> = Vec::new();
    let mut claimed = enlist_ids::<T>(client, store, rest, &mut tickets, &mut guards, &mut retry);
    batch.tickets.append(&mut tickets);
    batch.claimed.append(&mut claimed);
    let ghost fresh = guards@;
    let ghost held_guards = batch.guards@;
    let ghost held_index = index_view(batch.listing@);
    assert(held_guards + fresh.take(0) =~= held_guards);
    for guard in it: guards
        invariant
            it.seq() == fresh,
            batch.guards@ == held_guards + fresh.take(it.index()),
            index_view(batch.listing@) == indexed(
                held_index,
                held_guards.len(),
                fresh.take(it.index()),
            ),
            batch.result@ == old(batch).result@ + found::<T>(
                force,
                old(store).cache@,
                ids@,
                client.language,
                now,
            ),
            batch.tickets@ == old(batch).tickets@ + enlist::<T>(
                slots,
                sought::<T>(force, old(store).cache@, ids@, client.language, now),
                client.language,
            ).tickets,
            batch.claimed@ == old(batch).claimed@ + enlist::<T>(
                slots,
                sought::<T>(force, old(store).cache@, ids@, client.language, now),
                client.language,
            ).claimed,
            batch.requests@ == old(batch).requests@,
            batch.retry@ == old(batch).retry@,
    {
        let place = batch.guards.len();
        proof {
            let upto = fresh.take(it.index() + 1);
            assert(upto.drop_last() =~= fresh.take(it.index()));
            assert(upto.last() == guard);
            assert(held_guards + upto =~= (held_guards + fresh.take(it.index())).push(guard));
        }
        listing_set(&mut batch.listing, &guard.key, Some(place));
        batch.guards.push(guard);
    }
    assert(fresh.take(fresh.len() as int) =~= fresh);
    assert(old(batch).retry@ =~= Seq::<T::IdType>::empty());
    batch.retry = retry;
}

/// Ends a pass: gives everything back where requests are due and cannot be
/// built, and builds the requests where no id is left to ask for again.
fn settle<T: EndpointWithId>(client: &Client, store: &mut Store<T>, batch: Batch<T>) -> (r: Result<
    Batch<T>,
    EndpointError,
>)
    ensures
        final(store).cache@ == old(store).cache@,
        well_formed(old(store).inflight@) ==> well_formed(final(store).inflight@),
        settled::<T>(r, final(store).inflight@, *client, sorted_of(batch, old(store).inflight@)),
{
    let Batch { result, tickets, guards, listing, claimed, requests, retry } = batch;
    if claimed.len() > 0 && T::AUTHENTICATED && client.api_key.is_none() {
        abandon_guards(store, guards, &listing);
        cancel_tickets(store, tickets);
        return Err(EndpointError::NotAuthenticated);
    }
    if retry.len() > 0 {
        return Ok(
            Batch { result, tickets, guards, listing, claimed, requests: Vec::new(), retry },
        );
    }
    match bulk::<T>(client, &claimed) {
        Ok(requests) => Ok(Batch { result, tickets, guards, listing, claimed, requests, retry }),
        Err(e) => {
            abandon_guards(store, guards, &listing);
            cancel_tickets(store, tickets);
            Err(e)
        },
    }
}

/// The first step of a request for multiple ids at once.
///
/// Takes what the cache holds, unless the request is forced, and asks the
/// registry for every other id. Where no key was stale, it builds one
/// request for each chunk of up to 200 claimed ids; where some were, the
/// batch names them and `reask` goes on.
pub fn many<T: BulkEndpoint>(
    client: &Client,
    force: bool,
    store: &mut Store<T>,
    ids: Vec<T::IdType>,
    now: i64,
) -> (r: Result<Batch<T>, EndpointError>)
    ensures
        final(store).cache@ == old(store).cache@,
        well_formed(old(store).inflight@) ==> well_formed(final(store).inflight@),
        settled::<T>(
            r,
            final(store).inflight@,
            *client,
            asked::<T>(
                unsorted(old(store).inflight@),
                force,
                old(store).cache@,
                ids@,
                client.language,
                now,
            ),
        ),
{
    let mut batch: Batch<T> = Batch {
        result: Vec::new(),
        tickets: Vec::new(),
        guards: Vec::new(),
        listing: HashMap::new(),
        claimed: Vec::new(),
        requests: Vec::new(),
        retry: Vec::new(),
    };
    assert(index_view(batch.listing@) =~= Map::<CacheKey, usize>::empty());
    assert(sorted_of(batch, store.inflight@) =~= unsorted(store.inflight@));
    let ghost first = unsorted::<T>(store.inflight@);
    ask::<T>(client, force, store, &mut batch, ids, now);
    proof {
        let sorted = asked::<T>(first, force, store.cache@, ids@, client.language, now);
        assert(sorted_of(batch, store.inflight@) =~= sorted);
    }
    settle::<T>(client, store, batch)
}

/// The next pass of a bulk request: asks again for the ids whose keys were
/// stale, as `many` asked for them, and adds what comes of it to what the
/// batch holds. The requests are built when no id is left to ask for
/// again, once, over all the ids that the passes claimed.
pub fn reask<T: BulkEndpoint>(
    client: &Client,
    force: bool,
    store: &mut Store<T>,
    batch: Batch<T>,
    now: i64,
) -> (r: Result<Batch<T>, EndpointError>)
    ensures
        final(store).cache@ == old(store).cache@,
        well_formed(old(store).inflight@) ==> well_formed(final(store).inflight@),
        settled::<T>(
            r,
            final(store).inflight@,
            *client,
            asked::<T>(
                sorted_of(batch, old(store).inflight@),
                force,
                old(store).cache@,
                batch.retry@,
                client.language,
                now,
            ),
        ),
{
    let Batch { result, tickets, guards, listing, claimed, requests, retry } = batch;
    let mut rest: Batch<T> = Batch {
        result,
        tickets,
        guards,
        listing,
        claimed,
        requests,
        retry: Vec::new(),
    };
    let ghost before = sorted_of(batch, store.inflight@);
    let ghost emptied = sorted_of(rest, store.inflight@);
    ask::<T>(client, force, store, &mut rest, retry, now);
    proof {
        let via = asked::<T>(emptied, force, store.cache@, batch.retry@, client.language, now);
        let sorted = asked::<T>(before, force, store.cache@, batch.retry@, client.language, now);
        assert(via =~= sorted);
        assert(sorted_of(rest, store.inflight@) =~= sorted);
    }
    settle::<T>(client, store, rest)
}

/// The cache after each item of a list has been stored under its own id,
/// all with the same expiry.
pub open spec fn stored_all<T: BulkEndpoint>(
    held: Map<CacheKey, (Arc<T>, i64)>,
    items: Seq<Arc<T>>,
    language: crate::language::Language,
    expires: i64,
) -> Map<CacheKey, (Arc<T>, i64)>
    decreases items.len(),
{
    if items.len() == 0 {
        held
    } else {
        stored_all::<T>(held, items.drop_last(), language, expires).insert(
            item_key_of::<T>(items.last().spec_id(), language),
            (items.last(), expires),
        )
    }
}

/// `shared` holds the items of `items`, one handle for each, in order.
pub open spec fn shares<T>(shared: Seq<Arc<T>>, items: Seq<T>) -> bool {
    &&& shared.len() == items.len()
    &&& forall|i: int| 0 <= i < items.len() ==> *(#[trigger] shared[i]) == items[i]
}

/// Stores each item of a decoded bulk response under its own id, with one
/// expiry for the whole response, and appends the items to `result`. A
/// response whose status is not one of success fails with `Api`: nothing
/// is stored and nothing appended.
pub fn cache_response_many<T: BulkEndpoint>(
    client: &Client,
    cache_duration: u64,
    store: &mut Store<T>,
    response: &Response,
    items: Vec<T>,
    result: &mut Vec<Arc<T>>,
    now: i64,
) -> (r: Result<(), EndpointError>)
    ensures
        final(store).inflight@ == old(store).inflight@,
        match r {
            Ok(_) => {
                &&& succeeded(response.status)
                &&& final(result)@.len() == old(result)@.len() + items@.len()
                &&& final(result)@.take(old(result)@.len() as int) == old(result)@
                &&& shares(final(result)@.skip(old(result)@.len() as int), items@)
                &&& final(store).cache@ == stored_all::<T>(
                    old(store).cache@,
                    final(result)@.skip(old(result)@.len() as int),
                    client.language,
                    expiry_of(now, cache_duration, response.headers@),
                )
            },
            Err(e) => {
                &&& !succeeded(response.status)
                &&& e == EndpointError::Api
                &&& final(result)@ == old(result)@
                &&& final(store).cache@ == old(store).cache@
            },
        },
{
    match accept(response.status) {
        Ok(()) => {},
        Err(e) => {
            return Err(e);
        },
    }
    let expires = get_cache_expiry(now, cache_duration, response);
    let ghost all = items@;
    let ghost start = result@;
    let ghost held = store.cache@;
    let ghost slots = store.inflight@;
    assert(result@.skip(start.len() as int) =~= Seq::<Arc<T>>::empty());
    assert(result@.take(start.len() as int) =~= start);
    for item in it: items
        invariant
            it.seq() == all,
            store.inflight@ == slots,
            result@.len() == start.len() + it.index(),
            result@.take(start.len() as int) == start,
            shares(result@.skip(start.len() as int), all.take(it.index())),
            store.cache@ == stored_all::<T>(
                held,
                result@.skip(start.len() as int),
                client.language,
                expires,
            ),
    {
        let ghost before = result@;
        let shared = Arc::new(item);
        let key = item_key::<T>(shared.id(), client.language);
        store.cache.insert(key, share(&shared), expires);
        result.push(shared);
        proof {
            let fresh = result@.skip(start.len() as int);
            assert(fresh.drop_last() =~= before.skip(start.len() as int));
            assert(fresh.last() == shared);
            assert(result@.take(start.len() as int) =~= before.take(start.len() as int));
            assert forall|i: int| 0 <= i < it.index() + 1 implies *(#[trigger] fresh[i])
                == all.take(it.index() + 1)[i] by {
                if i < it.index() {
                    assert(fresh[i] == before.skip(start.len() as int)[i]);
                    assert(all.take(it.index() + 1)[i] == all.take(it.index())[i]);
                }
            }
        }
    }
    assert(all.take(all.len() as int) =~= all);
    Ok(())
}

/// Registry and index after each item of a list has been handed to the
/// producer's channel of its key, where the batch holds a guard for the key
/// that is still to be answered. The guard is then answered. An item
/// without such a guard changes nothing.
pub open spec fn handed_out<T: BulkEndpoint>(
    slots: Slots<T>,
    guards: Seq<Guard>,
    index: Map<CacheKey, usize>,
    items: Seq<Arc<T>>,
    language: crate::language::Language,
) -> (Slots<T>, Map<CacheKey, usize>)
    decreases items.len(),
{
    if items.len() == 0 {
        (slots, index)
    } else {
        let (s, i) = handed_out::<T>(slots, guards, index, items.drop_last(), language);
        let key = item_key_of::<T>(items.last().spec_id(), language);
        match live_guard(guards, i, key) {
            Some(p) => (after_publish(s, guards[p], items.last()), i.remove(key)),
            None => (s, i),
        }
    }
}

/// `batch` and the store are as the step for one chunk leaves them, after
/// a response with a status of success: every item is stored and appended
/// to the result, and each is handed to the producer's channel of its key.
pub open spec fn chunk_taken_in<T: BulkEndpoint>(
    before: Batch<T>,
    after: Batch<T>,
    held: Map<CacheKey, (Arc<T>, i64)>,
    held_after: Map<CacheKey, (Arc<T>, i64)>,
    slots: Slots<T>,
    slots_after: Slots<T>,
    items: Seq<T>,
    language: crate::language::Language,
    expires: i64,
) -> bool {
    let fresh = after.result@.skip(before.result@.len() as int);
    &&& after.result@.len() == before.result@.len() + items.len()
    &&& after.result@.take(before.result@.len() as int) == before.result@
    &&& shares(fresh, items)
    &&& held_after == stored_all::<T>(held, fresh, language, expires)
    &&& after.guards@ == before.guards@
    &&& (slots_after, index_view(after.listing@)) == handed_out::<T>(
        slots,
        before.guards@,
        index_view(before.listing@),
        fresh,
        language,
    )
}

/// The producer's step for one chunk: stores every item of the decoded
/// response, then hands each to those who wait for it and frees its key.
/// All items are in the cache before any is handed out. A response whose
/// status is not one of success fails with `Api` and changes nothing: the
/// request as a whole has failed and is to be given up with
/// `abandon_many`.
pub fn complete_chunk<T: BulkEndpoint>(
    client: &Client,
    cache_duration: u64,
    store: &mut Store<T>,
    batch: &mut Batch<T>,
    response: &Response,
    items: Vec<T>,
    now: i64,
) -> (r: Result<(), EndpointError>)
    ensures
        final(batch).tickets@ == old(batch).tickets@,
        final(batch).claimed@ == old(batch).claimed@,
        final(batch).requests@ == old(batch).requests@,
        final(batch).retry@ == old(batch).retry@,
        well_formed(old(store).inflight@) ==> well_formed(final(store).inflight@),
        match r {
            Ok(_) => succeeded(response.status) && chunk_taken_in::<T>(
                *old(batch),
                *final(batch),
                old(store).cache@,
                final(store).cache@,
                old(store).inflight@,
                final(store).inflight@,
                items@,
                client.language,
                expiry_of(now, cache_duration, response.headers@),
            ),
            Err(e) => {
                &&& !succeeded(response.status)
                &&& e == EndpointError::Api
                &&& final(batch).result@ == old(batch).result@
                &&& final(batch).guards@ == old(batch).guards@
                &&& index_view(final(batch).listing@) == index_view(old(batch).listing@)
                &&& final(store).cache@ == old(store).cache@
                &&& final(store).inflight@ == old(store).inflight@
            },
        },
{
    let index = batch.result.len();
    let ghost slots = store.inflight@;
    let ghost guards = batch.guards@;
    match cache_response_many::<T>(
        client,
        cache_duration,
        store,
        response,
        items,
        &mut batch.result,
        now,
    ) {
        Ok(()) => {},
        Err(e) => {
            return Err(e);
        },
    }
    let ghost held = store.cache@;
    let ghost gathered = batch.result@;
    let ghost fresh = batch.result@.skip(index as int);
    let ghost index_before = index_view(batch.listing@);
    let n = batch.result.len();
    let mut i: usize = index;
    assert(fresh.take(0) =~= Seq::<Arc<T>>::empty());
    while i < n
        invariant
            index <= i <= n,
            n == batch.result@.len(),
            batch.result@ == gathered,
            fresh == gathered.skip(index as int),
            store.cache@ == held,
            batch.guards@ == guards,
            batch.tickets@ == old(batch).tickets@,
            batch.claimed@ == old(batch).claimed@,
            batch.requests@ == old(batch).requests@,
            batch.retry@ == old(batch).retry@,
            store.inflight@ == handed_out::<T>(
                slots,
                guards,
                index_before,
                fresh.take(i - index),
                client.language,
            ).0,
            index_view(batch.listing@) == handed_out::<T>(
                slots,
                guards,
                index_before,
                fresh.take(i - index),
                client.language,
            ).1,
            well_formed(slots) ==> well_formed(store.inflight@),
        decreases n - i,
    {
        proof {
            let upto = fresh.take(i - index + 1);
            assert(upto.drop_last() =~= fresh.take(i - index));
            assert(upto.last() == batch.result@[i as int]);
        }
        let key = item_key::<T>(batch.result[i].id(), client.language);
        assert(key == item_key_of::<T>(batch.result@[i as int].spec_id(), client.language));
        let held_at = match listing_get(&batch.listing, &key) {
            Some(p) => if p < batch.guards.len() && batch.guards[p].key == key {
                Some(p)
            } else {
                None
            },
            None => None,
        };
        match held_at {
            Some(p) => {
                let guard = Guard { index: batch.guards[p].index, key };
                assert(guard == guards[p as int]);
                listing_set(&mut batch.listing, &key, None);
                let value = share(&batch.result[i]);
                store.inflight.publish(guard, value);
                store.inflight.remove(&key);
            },
            None => {},
        }
        i += 1;
    }
    assert(fresh.take(n - index) =~= fresh);
    Ok(())
}

/// What looking once for every awaited result finds.
pub struct Polled<T> {
    /// The registry afterwards.
    pub slots: Slots<T>,
    /// The values that were ready, in the order of their tickets.
    pub values: Seq<Arc<T>>,
    /// The tickets whose producers are still at work.
    pub pending: Seq<Ticket>,
    /// Whether a producer went away without a value.
    pub closed: bool,
}

/// Looks once for the result of each ticket in turn.
pub open spec fn poll_all<T>(slots: Slots<T>, tickets: Seq<Ticket>) -> Polled<T>
    decreases tickets.len(),
{
    if tickets.len() == 0 {
        Polled { slots, values: Seq::empty(), pending: Seq::empty(), closed: false }
    } else {
        let prev = poll_all(slots, tickets.drop_last());
        let next = after_receive(prev.slots, tickets.last());
        match reception(prev.slots, tickets.last()) {
            Reception::Ready(v) => Polled { slots: next, values: prev.values.push(v), ..prev },
            Reception::Pending(t) => Polled { slots: next, pending: prev.pending.push(t), ..prev },
            Reception::Closed => Polled { slots: next, closed: true, ..prev },
        }
    }
}

/// Where a bulk request stands once its producers' work is done.
pub enum Gathered<T: EndpointWithId> {
    /// Every value is there.
    Done(Vec<Arc<T>>),
    /// Some joined producers are still at work: wait, then gather again.
    Wait(Batch<T>),
    /// The request failed.
    Failed(EndpointError),
}

/// The last step of a bulk request, after all chunks are answered.
///
/// The guards that no response answered are given up first. Then the
/// result of every joined producer is looked for. If one of them went away
/// without a value, the request fails with `Receive` and the tickets that
/// are left are given back. If some are still at work, the batch comes back
/// with their tickets. Otherwise the values are complete. Ids that are
/// still marked for retry are not waited for.
pub fn gather<T: EndpointWithId>(store: &mut Store<T>, batch: Batch<T>) -> (g: Gathered<T>)
    ensures
        final(store).cache@ == old(store).cache@,
        well_formed(old(store).inflight@) ==> well_formed(final(store).inflight@),
        ({
            let p = poll_all(
                abandon_live(old(store).inflight@, batch.guards@, index_view(batch.listing@)),
                batch.tickets@,
            );
            if p.closed {
                &&& g matches Gathered::Failed(error)
                &&& error == EndpointError::Receive
                &&& final(store).inflight@ == cancel_all(p.slots, p.pending)
            } else if p.pending.len() > 0 {
                &&& g matches Gathered::Wait(rest)
                &&& rest.result@ == batch.result@ + p.values
                &&& rest.tickets@ == p.pending
                &&& rest.guards@.len() == 0
                &&& index_view(rest.listing@) == Map::<CacheKey, usize>::empty()
                &&& rest.claimed@ == batch.claimed@
                &&& rest.requests@ == batch.requests@
                &&& rest.retry@ == batch.retry@
                &&& final(store).inflight@ == p.slots
            } else {
                &&& g matches Gathered::Done(values)
                &&& values@ == batch.result@ + p.values
                &&& final(store).inflight@ == p.slots
            }
        }),
{
    let Batch { result, tickets, guards, listing, claimed, requests, retry } = batch;
    let ghost before = store.inflight@;
    let ghost start = result@;
    let mut result = result;
    abandon_guards(store, guards, &listing);
    let ghost freed = store.inflight@;
    let ghost held = store.cache@;
    let ghost all = tickets@;
    let mut pending: Vec<Ticket> = Vec::new();
    let mut closed = false;
    assert(pending@ =~= Seq::<Ticket>::empty());
    assert(result@ =~= start + Seq::<Arc<T>>::empty());
    for ticket in it: tickets
        invariant
            it.seq() == all,
            store.cache@ == held,
            well_formed(before) ==> well_formed(store.inflight@),
            ({
                let p = poll_all(freed, all.take(it.index()));
                &&& store.inflight@ == p.slots
                &&& result@ == start + p.values
                &&& pending@ == p.pending
                &&& closed == p.closed
            }),
    {
        proof {
            let upto = all.take(it.index() + 1);
            assert(upto.drop_last() =~= all.take(it.index()));
            assert(upto.last() == ticket);
        }
        let ghost p = poll_all(freed, all.take(it.index() as int));
        match store.inflight.receive(ticket) {
            Reception::Ready(value) => {
                result.push(value);
                assert(result@ =~= start + p.values.push(value));
            },
            Reception::Pending(ticket) => {
                pending.push(ticket);
            },
            Reception::Closed => {
                closed = true;
            },
        }
    }
    assert(all.take(all.len() as int) =~= all);
    if closed {
        cancel_tickets(store, pending);
        Gathered::Failed(EndpointError::Receive)
    } else if pending.len() > 0 {
        let rest = Batch {
            result,
            tickets: pending,
            guards: Vec::new(),
            listing: HashMap::new(),
            claimed,
            requests,
            retry,
        };
        assert(index_view(rest.listing@) =~= Map::<CacheKey, usize>::empty());
        Gathered::Wait(rest)
    } else {
        Gathered::Done(result)
    }
}

/// Gives a bulk request up: its guards are abandoned and its tickets given
/// back. What it stored in the cache stays there.
pub fn abandon_many<T: EndpointWithId>(store: &mut Store<T>, batch: Batch<T>)
    ensures
        final(store).cache@ == old(store).cache@,
        final(store).inflight@ == cancel_all(
            abandon_live(old(store).inflight@, batch.guards@, index_view(batch.listing@)),
            batch.tickets@,
        ),
        well_formed(old(store).inflight@) ==> well_formed(final(store).inflight@),
{
    let Batch { result, tickets, guards, listing, claimed, requests, retry } = batch;
    abandon_guards(store, guards, &listing);
    cancel_tickets(store, tickets);
}

/// How many guards of a list are still to be answered.
pub open spec fn live_count(guards: Seq<Guard>, index: Map<CacheKey, usize>) -> nat
    decreases guards.len(),
{
    if guards.len() == 0 {
        0
    } else {
        live_count(guards.drop_last(), index) + if is_live(guards, index, guards.len() - 1) {
            1nat
        } else {
            0nat
        }
    }
}

impl<T: EndpointWithId> Batch<T> {
    /// How many claimed ids no response has answered yet.
    pub fn unanswered(&self) -> (n: usize)
        ensures
            n == live_count(self.guards@, index_view(self.listing@)),
    {
        let ghost index = index_view(self.listing@);
        let mut n: usize = 0;
        let mut i: usize = 0;
        while i < self.guards.len()
            invariant
                i <= self.guards@.len(),
                n <= i,
                index == index_view(self.listing@),
                n == live_count(self.guards@.take(i as int), index),
            decreases self.guards@.len() - i,
        {
            proof {
                let upto = self.guards@.take(i + 1);
                assert(upto.drop_last() =~= self.guards@.take(i as int));
                assert(upto[upto.len() - 1] == self.guards@[i as int]);
            }
            let live = match listing_get(&self.listing, &self.guards[i].key) {
                Some(p) => p == i,
                None => false,
            };
            if live {
                n = n + 1;
            }
            i += 1;
        }
        assert(self.guards@.take(i as int) =~= self.guards@);
        n
    }
}

} // verus!
