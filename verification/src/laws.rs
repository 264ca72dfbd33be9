//! What holds of the strategies, whatever the state and the inputs.
use vstd::prelude::*;
use std::sync::Arc;
use crate::bulk::{
    accounted, asked, enlist, found, hits, lemma_enlist_counts, lemma_hits_and_misses,
    lemma_pass_accounts, settled, sought, stored_all, unsorted, Batch, Sorted,
};
use crate::cache::{item_key_of, key_of, lookup, unit_key_of, CacheKey, ValueKind};
use crate::chunks::chunk_count;
use crate::endpoint::{BulkEndpoint, Endpoint, EndpointWithId};
use crate::error::EndpointError;
use crate::hashing::{lemma_word_digest_injective, text_digest, word_digest};
use crate::expiry::{expire_seconds_of, expiry_of};
use crate::http::{may_request, Client, Header, Request};
use crate::inflight::{
    admits, after_check, after_end, after_receive, after_remove, check_outcome, holds,
    lemma_check_keeps_order, lemma_claim, lemma_claim_leaves_others, lemma_end_unlists,
    lemma_position, lists, next_index,
    position, reception, well_formed, Channel, Guard, Outcome, Phase, Slots, Ticket,
};
use crate::language::Language;
use crate::paging::gated;
use crate::requester::{after_abandon, after_publish, begins, cached, resumed, Step};

verus! {

/// A value that the cache holds and that has not expired ends a request
/// that is not forced at its first step: the value is handed back, no
/// request is built, and the registry is not touched.
pub proof fn cache_hit_avoids_network<T: Endpoint, K>(
    step: Step<K>,
    client: Client,
    held: Map<CacheKey, (Arc<K>, i64)>,
    slots: Slots<K>,
    slots_after: Slots<K>,
    key: CacheKey,
    url: Seq<char>,
    now: i64,
)
    requires
        begins::<T, K>(step, client, false, held, slots, slots_after, key, url, now),
        held.contains_key(key),
        held[key].1 > now,
    ensures
        step == Step::Done(held[key].0),
        slots_after == slots,
{
}

/// Where every id of a bulk request is in the cache and the request is not
/// forced, every value comes from the cache and nothing is asked of the
/// registry, so no request is built.
pub proof fn cached_ids_need_no_request<T: EndpointWithId>(
    held: Map<CacheKey, (Arc<T>, i64)>,
    slots: Slots<T>,
    ids: Seq<T::IdType>,
    language: Language,
    now: i64,
)
    requires
        hits::<T>(held, ids, language, now).len() == ids.len(),
    ensures
        sought::<T>(false, held, ids, language, now).len() == 0,
        enlist::<T>(slots, sought::<T>(false, held, ids, language, now), language).claimed.len()
            == 0,
        chunk_count(0) == 0,
{
    lemma_hits_and_misses::<T>(held, ids, language, now);
    lemma_enlist_counts::<T>(slots, sought::<T>(false, held, ids, language, now), language);
}

/// An entry that has expired does not answer. Where nothing is in flight
/// for its key and a request can be built, the first step of a request
/// that is not forced makes the caller the producer and hands it the
/// request.
pub proof fn expired_entry_is_fetched_again<T: Endpoint, K>(
    step: Step<K>,
    client: Client,
    held: Map<CacheKey, (Arc<K>, i64)>,
    slots: Slots<K>,
    slots_after: Slots<K>,
    key: CacheKey,
    url: Seq<char>,
    now: i64,
)
    requires
        begins::<T, K>(step, client, false, held, slots, slots_after, key, url, now),
        held.contains_key(key),
        held[key].1 <= now,
        position(slots, key) is None,
        slots.len() < usize::MAX,
        may_request(T::AUTHENTICATED, client.api_key),
    ensures
        step is Send,
        holds(slots_after, step->Send_0),
        step->Send_0.key == key,
{
    lemma_claim(slots, key);
}

/// What a producer stores takes the place of what stood under the key, and
/// answers from then on until it expires.
pub proof fn stored_value_replaces_entry<K>(
    held: Map<CacheKey, (Arc<K>, i64)>,
    key: CacheKey,
    value: Arc<K>,
    expires: i64,
    now: i64,
)
    ensures
        held.insert(key, (value, expires))[key] == (value, expires),
        expires > now ==> lookup(held.insert(key, (value, expires)), key, now) == Some(value),
        expires <= now ==> lookup(held.insert(key, (value, expires)), key, now) is None,
{
}

/// A forced request does not read the cache. Where nothing is in flight
/// for its key and a request can be built, its first step hands the caller
/// the request, whatever the cache holds.
pub proof fn forced_request_passes_cache_by<T: Endpoint, K>(
    step: Step<K>,
    client: Client,
    held: Map<CacheKey, (Arc<K>, i64)>,
    slots: Slots<K>,
    slots_after: Slots<K>,
    key: CacheKey,
    url: Seq<char>,
    now: i64,
)
    requires
        begins::<T, K>(step, client, true, held, slots, slots_after, key, url, now),
        position(slots, key) is None,
        slots.len() < usize::MAX,
        may_request(T::AUTHENTICATED, client.api_key),
    ensures
        step is Send,
        holds(slots_after, step->Send_0),
        step->Send_0.key == key,
{
    lemma_claim(slots, key);
}

/// In a registry that is in order no key has two producers at work.
pub proof fn one_producer_per_key<K>(slots: Slots<K>, i: int, j: int)
    requires
        well_formed(slots),
        0 <= i < slots.len(),
        0 <= j < slots.len(),
        slots[i] matches Some(a) && a.phase is Open,
        slots[j] matches Some(b) && b.phase is Open,
        slots[i].unwrap().key == slots[j].unwrap().key,
    ensures
        i == j,
{
    let key = slots[i].unwrap().key;
    assert(lists(slots, i, key));
    assert(lists(slots, j, key));
}

/// While a producer is at work for a key, a caller that finds nothing in
/// the cache does not become a second producer: it joins the first, on the
/// producer's own channel, and the producer's guard stays in force.
pub proof fn callers_join_the_producer<T: Endpoint, K>(
    step: Step<K>,
    client: Client,
    force: bool,
    held: Map<CacheKey, (Arc<K>, i64)>,
    slots: Slots<K>,
    slots_after: Slots<K>,
    guard: Guard,
    url: Seq<char>,
    now: i64,
)
    requires
        well_formed(slots),
        holds(slots, guard),
        slots[guard.index as int].unwrap().receivers < usize::MAX,
        cached(force, held, guard.key, now) is None,
        begins::<T, K>(step, client, force, held, slots, slots_after, guard.key, url, now),
    ensures
        step == Step::<K>::Wait(Ticket { index: guard.index }),
        holds(slots_after, guard),
        slots_after[guard.index as int].unwrap().receivers == slots[guard.index as int].unwrap().receivers
            + 1,
        admits(slots_after, Ticket { index: guard.index }),
{
    lemma_position(slots, guard.key);
    let p = position(slots, guard.key).unwrap();
    assert(lists(slots, p, guard.key));
    assert(lists(slots, guard.index as int, guard.key));
}

/// The registry after `n` callers in a row have asked for `key`.
pub open spec fn after_checks<K>(slots: Slots<K>, key: CacheKey, n: nat) -> Slots<K>
    decreases n,
{
    if n == 0 {
        slots
    } else {
        after_check(after_checks(slots, key, (n - 1) as nat), key)
    }
}

/// Of any number of callers that ask for a key that nobody holds, the
/// first becomes the producer and every later one joins it on the
/// producer's channel, as long as the producer is at work: one request is
/// sent for all of them.
pub proof fn one_producer_for_all_callers<K>(slots: Slots<K>, key: CacheKey, n: nat)
    requires
        well_formed(slots),
        position(slots, key) is None,
        slots.len() < usize::MAX,
        1 <= n < usize::MAX,
    ensures
        check_outcome(slots, key) == Outcome::Claim(
            Guard { index: next_index(slots) as usize, key },
        ),
        check_outcome(after_checks(slots, key, n), key) == Outcome::JoinExisting(
            Ticket { index: next_index(slots) as usize },
        ),
        holds(after_checks(slots, key, n), Guard { index: next_index(slots) as usize, key }),
        after_checks(slots, key, n)[next_index(slots)].unwrap().receivers == n - 1,
        well_formed(after_checks(slots, key, n)),
    decreases n,
{
    let guard = Guard { index: next_index(slots) as usize, key };
    lemma_claim(slots, key);
    if n == 1 {
        lemma_check_keeps_order(slots, key);
        let s = after_checks(slots, key, 1);
        assert(after_checks(slots, key, 0) == slots);
        assert(s == after_check(slots, key));
        lemma_position(s, key);
        let p = position(s, key).unwrap();
        assert(lists(s, p, key));
        assert(lists(s, guard.index as int, key));
    } else {
        one_producer_for_all_callers(slots, key, (n - 1) as nat);
        let before = after_checks(slots, key, (n - 1) as nat);
        let s = after_checks(slots, key, n);
        lemma_check_keeps_order(before, key);
        lemma_position(before, key);
        let at = position(before, key).unwrap();
        assert(lists(before, at, key));
        assert(lists(before, guard.index as int, key));
        assert(at == guard.index);
        assert(s == after_check(before, key));
        assert(lists(s, guard.index as int, key));
        lemma_position(s, key);
        let p = position(s, key).unwrap();
        assert(lists(s, p, key));
    }
}

/// The registry after `n` callers have taken their result from slot
/// `index`.
pub open spec fn after_receives<K>(slots: Slots<K>, index: usize, n: nat) -> Slots<K>
    decreases n,
{
    if n == 0 {
        slots
    } else {
        after_receive(after_receives(slots, index, (n - 1) as nat), Ticket { index })
    }
}

proof fn lemma_receivers_left<K>(slots: Slots<K>, index: usize, n: nat)
    requires
        0 <= index < slots.len(),
        slots[index as int] matches Some(c) && !(c.phase is Open) && n < c.receivers,
    ensures
        after_receives(slots, index, n)[index as int] matches Some(c) && c.phase
            == slots[index as int].unwrap().phase && c.receivers
            == slots[index as int].unwrap().receivers - n,
        after_receives(slots, index, n).len() == slots.len(),
    decreases n,
{
    if n > 0 {
        lemma_receivers_left(slots, index, (n - 1) as nat);
    }
}

/// What the last step of a producer leaves in its slot: nothing where no
/// caller joined, else the channel, off the list, with the value or
/// closed, and with every receiver still counted.
proof fn lemma_ended_channel<K>(slots: Slots<K>, guard: Guard, value: Option<Arc<K>>)
    requires
        well_formed(slots),
        holds(slots, guard),
    ensures
        ({
            let ended = after_remove(after_end(slots, guard, value), guard.key);
            let was = slots[guard.index as int].unwrap();
            &&& ended.len() == slots.len()
            &&& was.receivers == 0 ==> ended[guard.index as int] is None
            &&& was.receivers > 0 ==> ended[guard.index as int] == Some(
                Channel {
                    key: was.key,
                    phase: match value {
                        Some(v) => Phase::Sent(v),
                        None => Phase::Closed,
                    },
                    receivers: was.receivers,
                    listed: false,
                },
            )
        }),
{
    let ended = after_end(slots, guard, value);
    lemma_position(slots, guard.key);
    lemma_position(ended, guard.key);
    assert(lists(slots, guard.index as int, guard.key));
    assert(lists(ended, guard.index as int, guard.key));
    let p = position(ended, guard.key).unwrap();
    assert(lists(slots, p, guard.key)) by {
        if p != guard.index as int {
            assert(ended[p] == slots[p]);
        }
    }
    assert(p == guard.index as int);
}

/// Once a producer has taken its last step with a value, each caller that
/// joined it resumes to that value: the first, and every one after, up to
/// the last.
pub proof fn published_value_reaches_every_joiner<K>(
    slots: Slots<K>,
    guard: Guard,
    value: Arc<K>,
    taken: nat,
)
    requires
        well_formed(slots),
        holds(slots, guard),
        taken < slots[guard.index as int].unwrap().receivers,
    ensures
        resumed(
            reception(
                after_receives(after_publish(slots, guard, value), guard.index, taken),
                Ticket { index: guard.index },
            ),
        ) == Step::Done(value),
{
    lemma_ended_channel(slots, guard, Some(value));
    lemma_receivers_left(after_publish(slots, guard, value), guard.index, taken);
}

/// Once a producer has given its key up without a value, each caller that
/// joined it resumes to the failure `Receive`.
pub proof fn lost_producer_fails_every_joiner<K>(slots: Slots<K>, guard: Guard, taken: nat)
    requires
        well_formed(slots),
        holds(slots, guard),
        taken < slots[guard.index as int].unwrap().receivers,
    ensures
        resumed(
            reception(
                after_receives(after_abandon(slots, guard), guard.index, taken),
                Ticket { index: guard.index },
            ),
        ) == Step::<K>::Failed(EndpointError::Receive),
{
    lemma_ended_channel(slots, guard, None);
    lemma_receivers_left(after_abandon(slots, guard), guard.index, taken);
}

/// Of `n` callers that ask, one after the other, for a key that nobody
/// holds and the cache does not answer, the first is the producer and the
/// other `n - 1` join it. Whatever the producer's last step is, it reaches
/// each of them: with a value each resumes to that value, and without one
/// each fails with `Receive`.
pub proof fn all_callers_end_as_the_producer_does<K>(
    slots: Slots<K>,
    key: CacheKey,
    n: nat,
    value: Arc<K>,
    taken: nat,
)
    requires
        well_formed(slots),
        position(slots, key) is None,
        slots.len() < usize::MAX,
        1 <= n < usize::MAX,
        taken < n - 1,
    ensures
        ({
            let guard = Guard { index: next_index(slots) as usize, key };
            let ticket = Ticket { index: guard.index };
            let joined = after_checks(slots, key, n);
            &&& check_outcome(slots, key) == Outcome::Claim(guard)
            &&& holds(joined, guard)
            &&& joined[guard.index as int].unwrap().receivers == n - 1
            &&& resumed(
                reception(
                    after_receives(after_publish(joined, guard, value), guard.index, taken),
                    ticket,
                ),
            ) == Step::Done(value)
            &&& resumed(
                reception(after_receives(after_abandon(joined, guard), guard.index, taken), ticket),
            ) == Step::<K>::Failed(EndpointError::Receive)
        }),
{
    let guard = Guard { index: next_index(slots) as usize, key };
    lemma_claim(slots, key);
    assert(guard.index as int == next_index(slots));
    one_producer_for_all_callers(slots, key, n);
    let joined = after_checks(slots, key, n);
    published_value_reaches_every_joiner(joined, guard, value, taken);
    lost_producer_fails_every_joiner(joined, guard, taken);
}

/// A response that says for how many seconds it may be kept, or a cache
/// duration of the caller, puts the expiry after the instant at which the
/// response came. A `cache-control` of 0 or less, with no cache duration,
/// does not.
pub proof fn positive_seconds_expire_later(now: i64, cache_duration: u64, headers: Seq<Header>)
    requires
        now < i64::MAX,
    ensures
        cache_duration > 0 || expire_seconds_of(headers) > 0 ==> expiry_of(
            now,
            cache_duration,
            headers,
        ) > now,
        cache_duration == 0 && expire_seconds_of(headers) <= 0 ==> expiry_of(
            now,
            cache_duration,
            headers,
        ) <= now,
{
}

/// What a producer has stored answers every later request for the key
/// that is not forced, as long as it has not expired: the request ends at
/// its first step with that value and nothing is sent. This holds whether
/// the entry is the first under its key or has taken the place of another.
pub proof fn stored_value_answers_later_requests<T: Endpoint, K>(
    step: Step<K>,
    client: Client,
    held: Map<CacheKey, (Arc<K>, i64)>,
    slots: Slots<K>,
    slots_after: Slots<K>,
    key: CacheKey,
    url: Seq<char>,
    value: Arc<K>,
    expires: i64,
    later: i64,
)
    requires
        begins::<T, K>(
            step,
            client,
            false,
            held.insert(key, (value, expires)),
            slots,
            slots_after,
            key,
            url,
            later,
        ),
        expires > later,
    ensures
        step == Step::Done(value),
        slots_after == slots,
{
}

/// Once a producer has ended and its key has been taken off the list, the
/// key can be claimed again.
pub proof fn ended_key_can_be_claimed_again<K>(slots: Slots<K>, guard: Guard, value: Option<Arc<K>>)
    requires
        well_formed(slots),
        holds(slots, guard),
    ensures
        check_outcome(after_remove(after_end(slots, guard, value), guard.key), guard.key) is Claim,
{
    let ended = after_end(slots, guard, value);
    let freed = after_remove(ended, guard.key);
    lemma_position(slots, guard.key);
    lemma_position(ended, guard.key);
    lemma_position(freed, guard.key);
    assert(lists(slots, guard.index as int, guard.key));
    assert(lists(ended, guard.index as int, guard.key));
    let p = position(ended, guard.key).unwrap();
    assert(lists(slots, p, guard.key)) by {
        if p != guard.index as int {
            assert(ended[p] == slots[p]);
        }
    }
    assert(p == guard.index as int);
    if position(freed, guard.key) is Some {
        let q = position(freed, guard.key).unwrap();
        assert(lists(freed, q, guard.key));
        assert(q != p);
        assert(freed[q] == slots[q]);
        assert(lists(slots, q, guard.key));
    }
}

/// No pass of a bulk request loses an id. After the first pass every id is
/// answered by the cache, joined, claimed or marked to be asked for again;
/// a later pass, which asks again for the marked ids, keeps that count.
pub proof fn passes_lose_no_id<T: EndpointWithId>(
    before: Sorted<T>,
    slots: Slots<T>,
    force: bool,
    held: Map<CacheKey, (Arc<T>, i64)>,
    ids: Seq<T::IdType>,
    language: Language,
    now: i64,
)
    ensures
        accounted(asked::<T>(unsorted(slots), force, held, ids, language, now)) == ids.len(),
        accounted(asked::<T>(before, force, held, before.retry, language, now)) == accounted(
            before,
        ),
{
    lemma_pass_accounts::<T>(unsorted(slots), force, held, ids, language, now);
    lemma_pass_accounts::<T>(before, force, held, before.retry, language, now);
}

/// Once no id is left to ask for again, the requests of a bulk request are
/// as many as the chunks of 200 that its ids fill, not counting the ids
/// that the cache answered and those whose producers were joined. They are
/// built over all claimed ids together, however many passes it took.
pub proof fn bulk_request_count<T: EndpointWithId>(
    r: Result<Batch<T>, EndpointError>,
    slots_after: Slots<T>,
    client: Client,
    sorted: Sorted<T>,
)
    requires
        settled::<T>(r, slots_after, client, sorted),
        r is Ok,
        sorted.retry.len() == 0,
    ensures
        r->Ok_0.requests@.len() == chunk_count(sorted.claimed.len()),
        sorted.claimed.len() == accounted(sorted) - sorted.result.len() - sorted.tickets.len(),
        r->Ok_0.requests@.len() == chunk_count(
            (accounted(sorted) - sorted.result.len() - sorted.tickets.len()) as nat,
        ),
{
}

/// The keys of a list of ids, in order.
pub open spec fn keys_of<T: EndpointWithId>(ids: Seq<T::IdType>, language: Language) -> Seq<
    CacheKey,
> {
    Seq::new(ids.len(), |i: int| item_key_of::<T>(ids[i], language))
}

/// No two entries of a list are equal.
pub open spec fn pairwise_distinct<A>(list: Seq<A>) -> bool {
    forall|i: int, j: int| 0 <= i < j < list.len() ==> list[i] != list[j]
}

/// Ids that the cache does not hold are all misses.
pub proof fn uncached_ids_are_all_sought<T: EndpointWithId>(
    held: Map<CacheKey, (Arc<T>, i64)>,
    ids: Seq<T::IdType>,
    language: Language,
    now: i64,
)
    requires
        forall|i: int|
            0 <= i < ids.len() ==> lookup(held, #[trigger] keys_of::<T>(ids, language)[i], now)
                is None,
    ensures
        sought::<T>(false, held, ids, language, now) == ids,
        found::<T>(false, held, ids, language, now).len() == 0,
    decreases ids.len(),
{
    if ids.len() > 0 {
        let front = ids.drop_last();
        assert forall|i: int| 0 <= i < front.len() implies lookup(
            held,
            #[trigger] keys_of::<T>(front, language)[i],
            now,
        ) is None by {
            assert(keys_of::<T>(front, language)[i] == keys_of::<T>(ids, language)[i]);
        }
        uncached_ids_are_all_sought::<T>(held, front, language, now);
        assert(keys_of::<T>(ids, language)[ids.len() - 1] == item_key_of::<T>(
            ids.last(),
            language,
        ));
        assert(front.push(ids.last()) =~= ids);
    } else {
        assert(sought::<T>(false, held, ids, language, now) =~= ids);
    }
}

/// Ids with keys of their own that nobody holds are all claimed, in order:
/// none is joined and none is sent back.
pub proof fn unlisted_ids_are_all_claimed<T: EndpointWithId>(
    slots: Slots<T>,
    ids: Seq<T::IdType>,
    language: Language,
)
    requires
        well_formed(slots),
        slots.len() + ids.len() < usize::MAX,
        pairwise_distinct(keys_of::<T>(ids, language)),
        forall|i: int|
            0 <= i < ids.len() ==> position(slots, #[trigger] keys_of::<T>(ids, language)[i])
                is None,
    ensures
        enlist::<T>(slots, ids, language).claimed == ids,
        enlist::<T>(slots, ids, language).guards.len() == ids.len(),
        enlist::<T>(slots, ids, language).tickets.len() == 0,
        enlist::<T>(slots, ids, language).retry.len() == 0,
        enlist::<T>(slots, ids, language).slots.len() <= slots.len() + ids.len(),
        well_formed(enlist::<T>(slots, ids, language).slots),
        forall|k: CacheKey|
            position(slots, k) is None && !keys_of::<T>(ids, language).contains(k) ==> position(
                #[trigger] enlist::<T>(slots, ids, language).slots,
                k,
            ) is None,
    decreases ids.len(),
{
    let keys = keys_of::<T>(ids, language);
    if ids.len() == 0 {
        assert(enlist::<T>(slots, ids, language).claimed =~= ids);
    } else {
        let front = ids.drop_last();
        let front_keys = keys_of::<T>(front, language);
        assert forall|i: int| 0 <= i < front.len() implies front_keys[i] == keys[i] by {}
        assert forall|i: int| 0 <= i < front.len() implies position(
            slots,
            #[trigger] front_keys[i],
        ) is None by {
            assert(front_keys[i] == keys[i]);
        }
        assert(pairwise_distinct(front_keys)) by {
            assert forall|i: int, j: int| 0 <= i < j < front_keys.len() implies front_keys[i]
                != front_keys[j] by {
                assert(front_keys[i] == keys[i] && front_keys[j] == keys[j]);
            }
        }
        unlisted_ids_are_all_claimed::<T>(slots, front, language);
        let prev = enlist::<T>(slots, front, language);
        let key = item_key_of::<T>(ids.last(), language);
        assert(key == keys[ids.len() - 1]);
        assert(!front_keys.contains(key)) by {
            if front_keys.contains(key) {
                let i = choose|i: int| 0 <= i < front_keys.len() && front_keys[i] == key;
                assert(keys[i] == keys[ids.len() - 1]);
            }
        }
        assert(position(prev.slots, key) is None);
        lemma_claim(prev.slots, key);
        lemma_check_keeps_order(prev.slots, key);
        lemma_position(prev.slots, key);
        crate::inflight::lemma_vacancy(prev.slots);
        let e = enlist::<T>(slots, ids, language);
        assert(e.slots == after_check(prev.slots, key));
        assert(e.claimed =~= ids);
        assert(e.slots.len() <= prev.slots.len() + 1);
        assert forall|k: CacheKey|
            position(slots, k) is None && !keys.contains(k) implies position(
            #[trigger] e.slots,
            k,
        ) is None by {
            assert(k != key) by {
                if k == key {
                    assert(keys[ids.len() - 1] == k);
                }
            }
            assert(!front_keys.contains(k)) by {
                if front_keys.contains(k) {
                    let i = choose|i: int| 0 <= i < front_keys.len() && front_keys[i] == k;
                    assert(keys[i] == k);
                }
            }
            assert(position(prev.slots, k) is None);
            lemma_claim_leaves_others(prev.slots, key, k);
        }
    }
}

/// Different numbers have different keys: the hash of a number loses
/// nothing of it.
pub proof fn numbers_have_keys_of_their_own<T: EndpointWithId<IdType = u64>>(
    a: u64,
    b: u64,
    language: Language,
)
    requires
        a != b,
    ensures
        item_key_of::<T>(a, language) != item_key_of::<T>(b, language),
{
    if word_digest(a) == word_digest(b) {
        lemma_word_digest_injective(a, b);
    }
}

/// A bulk request for different numbers of which none is cached and none
/// is in flight claims every one of them and asks for them in chunks of
/// 200: for `n` ids it builds `n / 200` requests, rounded up, and joins
/// nobody.
pub proof fn fresh_numbers_are_requested_in_chunks<T: EndpointWithId<IdType = u64>>(
    r: Result<Batch<T>, EndpointError>,
    slots_after: Slots<T>,
    client: Client,
    held: Map<CacheKey, (Arc<T>, i64)>,
    slots: Slots<T>,
    ids: Seq<u64>,
    now: i64,
)
    requires
        well_formed(slots),
        slots.len() + ids.len() < usize::MAX,
        pairwise_distinct(ids),
        forall|i: int|
            0 <= i < ids.len() ==> lookup(
                held,
                #[trigger] keys_of::<T>(ids, client.language)[i],
                now,
            ) is None && position(slots, keys_of::<T>(ids, client.language)[i]) is None,
        may_request(T::AUTHENTICATED, client.api_key),
        settled::<T>(
            r,
            slots_after,
            client,
            asked::<T>(unsorted(slots), false, held, ids, client.language, now),
        ),
    ensures
        r is Ok,
        r->Ok_0.requests@.len() == chunk_count(ids.len()),
        r->Ok_0.claimed@ == ids,
        r->Ok_0.guards@.len() == ids.len(),
        r->Ok_0.tickets@.len() == 0,
        r->Ok_0.retry@.len() == 0,
        r->Ok_0.result@.len() == 0,
{
    let keys = keys_of::<T>(ids, client.language);
    assert(pairwise_distinct(keys)) by {
        assert forall|i: int, j: int| 0 <= i < j < keys.len() implies keys[i] != keys[j] by {
            numbers_have_keys_of_their_own::<T>(ids[i], ids[j], client.language);
        }
    }
    uncached_ids_are_all_sought::<T>(held, ids, client.language, now);
    unlisted_ids_are_all_claimed::<T>(slots, ids, client.language);
    let sorted = asked::<T>(unsorted(slots), false, held, ids, client.language, now);
    assert(sorted.claimed =~= ids);
    assert(sorted.guards.len() == ids.len());
    assert(sorted.tickets.len() == 0);
    assert(sorted.result.len() == 0);
}

/// How many requests a first step asks its caller to send.
pub open spec fn requests_in<K>(step: Step<K>) -> nat {
    if step is Send {
        1
    } else {
        0
    }
}

/// Asking for all items of an endpoint by their ids, with nothing cached
/// and nothing in flight, takes one request for the list of ids and then
/// one for each chunk of 200 of the listed numbers: `1 + n / 200`, rounded
/// up, for `n` different ids.
pub proof fn all_by_ids_takes_one_request_and_the_chunks<T: EndpointWithId<IdType = u64>>(
    first: Step<Vec<u64>>,
    lists: Slots<Vec<u64>>,
    lists_after: Slots<Vec<u64>>,
    url: Seq<char>,
    r: Result<Batch<T>, EndpointError>,
    slots: Slots<T>,
    slots_after: Slots<T>,
    client: Client,
    held: Map<CacheKey, (Arc<T>, i64)>,
    ids: Seq<u64>,
    now: i64,
    later: i64,
)
    requires
        may_request(T::AUTHENTICATED, client.api_key),
        position(lists, unit_key_of::<T>(ValueKind::IdList, client.language)) is None,
        lists.len() < usize::MAX,
        begins::<T, Vec<u64>>(
            first,
            client,
            false,
            Map::empty(),
            lists,
            lists_after,
            unit_key_of::<T>(ValueKind::IdList, client.language),
            url,
            now,
        ),
        well_formed(slots),
        slots.len() + ids.len() < usize::MAX,
        pairwise_distinct(ids),
        forall|i: int|
            0 <= i < ids.len() ==> lookup(
                held,
                #[trigger] keys_of::<T>(ids, client.language)[i],
                later,
            ) is None && position(slots, keys_of::<T>(ids, client.language)[i]) is None,
        settled::<T>(
            r,
            slots_after,
            client,
            asked::<T>(unsorted(slots), false, held, ids, client.language, later),
        ),
    ensures
        first is Send,
        r is Ok,
        requests_in(first) + r->Ok_0.requests@.len() == 1 + chunk_count(ids.len()),
{
    lemma_claim(lists, unit_key_of::<T>(ValueKind::IdList, client.language));
    fresh_numbers_are_requested_in_chunks::<T>(r, slots_after, client, held, slots, ids, later);
}

/// Every item of a decoded bulk response is in the cache afterwards, under
/// its own id and with the expiry of the response. Where the response holds
/// one id twice, the later item stays.
pub proof fn chunk_items_are_cached<T: BulkEndpoint>(
    held: Map<CacheKey, (Arc<T>, i64)>,
    items: Seq<Arc<T>>,
    language: Language,
    expires: i64,
    i: int,
)
    requires
        0 <= i < items.len(),
        forall|j: int|
            i < j < items.len() ==> item_key_of::<T>((#[trigger] items[j]).spec_id(), language)
                != item_key_of::<T>(items[i].spec_id(), language),
    ensures
        stored_all::<T>(held, items, language, expires).contains_key(
            item_key_of::<T>(items[i].spec_id(), language),
        ),
        stored_all::<T>(held, items, language, expires)[item_key_of::<T>(
            items[i].spec_id(),
            language,
        )] == (items[i], expires),
    decreases items.len(),
{
    if i < items.len() - 1 {
        let front = items.drop_last();
        assert(front[i] == items[i]);
        assert forall|j: int| i < j < front.len() implies item_key_of::<T>(
            (#[trigger] front[j]).spec_id(),
            language,
        ) != item_key_of::<T>(front[i].spec_id(), language) by {
            assert(front[j] == items[j]);
        }
        chunk_items_are_cached::<T>(held, front, language, expires, i);
        assert(items[items.len() - 1] == items.last());
    }
}

/// A key carries the language exactly where the endpoint is
/// locale-sensitive.
pub proof fn language_is_keyed_where_it_matters<T: Endpoint>(
    kind: ValueKind,
    id: u64,
    language: Language,
)
    ensures
        key_of::<T>(kind, id, language).language is Some <==> T::LOCALE,
        T::LOCALE ==> key_of::<T>(kind, id, language).language == Some(language),
{
}

/// What is stored for one endpoint, or as one kind of value, answers no
/// request for another endpoint or another kind under the same id.
/// Endpoints are told apart by the hash of their paths.
pub proof fn other_types_do_not_answer<A: Endpoint, B: Endpoint, K>(
    held: Map<CacheKey, (Arc<K>, i64)>,
    kind_a: ValueKind,
    kind_b: ValueKind,
    id: u64,
    language: Language,
    value: Arc<K>,
    expires: i64,
    now: i64,
)
    requires
        text_digest(A::URL@) != text_digest(B::URL@) || kind_a != kind_b,
    ensures
        key_of::<A>(kind_a, id, language) != key_of::<B>(kind_b, id, language),
        lookup(
            held.insert(key_of::<A>(kind_a, id, language), (value, expires)),
            key_of::<B>(kind_b, id, language),
            now,
        ) == lookup(held, key_of::<B>(kind_b, id, language), now),
{
}

/// What is stored under one language answers no request of a
/// locale-sensitive endpoint under another language.
pub proof fn other_languages_do_not_answer<T: Endpoint, K>(
    held: Map<CacheKey, (Arc<K>, i64)>,
    kind: ValueKind,
    id: u64,
    stored: Language,
    asked: Language,
    value: Arc<K>,
    expires: i64,
    now: i64,
)
    requires
        T::LOCALE,
        stored != asked,
    ensures
        lookup(
            held.insert(key_of::<T>(kind, id, stored), (value, expires)),
            key_of::<T>(kind, id, asked),
            now,
        ) == lookup(held, key_of::<T>(kind, id, asked), now),
{
}

/// For an authenticated endpoint a client without an api key is never
/// handed a request. Where neither the cache nor the registry answers, the
/// request fails with `NotAuthenticated` and the key is listed no more than
/// before.
pub proof fn missing_key_sends_nothing<T: Endpoint, K>(
    step: Step<K>,
    client: Client,
    force: bool,
    held: Map<CacheKey, (Arc<K>, i64)>,
    slots: Slots<K>,
    slots_after: Slots<K>,
    key: CacheKey,
    url: Seq<char>,
    now: i64,
)
    requires
        begins::<T, K>(step, client, force, held, slots, slots_after, key, url, now),
        T::AUTHENTICATED,
        client.api_key is None,
        slots.len() < usize::MAX,
    ensures
        !(step is Send),
        cached(force, held, key, now) is None && position(slots, key) is None ==> step
            == Step::<K>::Failed(EndpointError::NotAuthenticated),
        cached(force, held, key, now) is None && position(slots, key) is None ==> position(
            slots_after,
            key,
        ) is None,
{
    if cached(force, held, key, now) is None && position(slots, key) is None {
        lemma_claim(slots, key);
        let guard = Guard { index: crate::inflight::next_index(slots) as usize, key };
        lemma_end_unlists(after_check(slots, key), guard, None);
    }
}

/// A query that the endpoint does not offer is never sent: asking for
/// pages of an endpoint without pages, or for `ids=all` of an endpoint that
/// does not take it, fails with `UnsupportedEndpointQuery`, whatever the
/// client and the query.
pub proof fn unsupported_query_sends_nothing<T: BulkEndpoint>(
    r: Result<Request, EndpointError>,
    client: Client,
    query: Seq<char>,
)
    requires
        gated::<T>(r, false, client, query),
    ensures
        r matches Err(e) && e == EndpointError::UnsupportedEndpointQuery,
{
}

/// A query that the endpoint offers is not sent either where the endpoint
/// is authenticated and the client has no api key: it fails with
/// `NotAuthenticated`.
pub proof fn missing_key_sends_no_query<T: BulkEndpoint>(
    r: Result<Request, EndpointError>,
    client: Client,
    query: Seq<char>,
)
    requires
        gated::<T>(r, true, client, query),
        T::AUTHENTICATED,
        client.api_key is None,
    ensures
        r matches Err(e) && e == EndpointError::NotAuthenticated,
{
}

} // verus!
