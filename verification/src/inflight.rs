//! The inflight registry: who is fetching what, and who waits for it.
//!
//! A caller that finds no cached value asks the registry. It either becomes
//! the producer for the key (`Claim`), joins the producer that is already
//! there (`JoinExisting`), or is told to look again later (`Retry`). A
//! producer ends by publishing a value or by letting go without one; both
//! leave the key in the registry, stale, until it is removed.
//!
//! The channels stand in slots, which guards and tickets point into. Which
//! slot holds the channel of a key is looked up in a hash map, keyed by
//! the hash of the id.
use vstd::prelude::*;
use std::collections::HashMap;
use std::sync::Arc;
use crate::cache::CacheKey;
use crate::shared::share;

verus! {

/// How far a producer has come.
pub enum Phase<T> {
    /// The producer is at work.
    Open,
    /// The producer published this value and is gone.
    Sent(Arc<T>),
    /// The producer is gone and left nothing.
    Closed,
}

/// One producer's channel to those who wait for it.
pub struct Channel<T> {
    /// The key that the producer fetches.
    pub key: CacheKey,
    pub phase: Phase<T>,
    /// How many joined callers have not yet taken their result.
    pub receivers: usize,
    /// Whether the registry still lists the channel under its key.
    pub listed: bool,
}

/// The right to produce the value of a key. It is not `Clone`: ending the
/// producer uses it up.
#[derive(Debug, PartialEq, Eq)]
pub struct Guard {
    pub index: usize,
    pub key: CacheKey,
}

/// The right to take one result from a channel. Receiving the result or
/// giving the ticket back uses it up.
#[derive(Debug, PartialEq, Eq)]
pub struct Ticket {
    pub index: usize,
}

/// What the registry answers to a caller that asks for a key.
#[derive(Debug, PartialEq, Eq)]
pub enum Outcome {
    /// A producer is at work: wait for it with this ticket.
    JoinExisting(Ticket),
    /// Nobody holds the key: the caller is now its producer.
    Claim(Guard),
    /// The key is listed but cannot be joined: look at the cache again,
    /// then ask again.
    Retry,
}

/// What a joined caller finds when it looks for its result.
pub enum Reception<T> {
    /// The producer's value.
    Ready(Arc<T>),
    /// The producer went away without a value, or the ticket is void.
    Closed,
    /// The producer is still at work; the ticket comes back.
    Pending(Ticket),
}

/// The slots of a registry. A slot is empty or holds a channel.
pub type Slots<T> = Seq<Option<Channel<T>>>;

/// Slot `i` holds a channel that is listed under `key`.
pub open spec fn lists<T>(s: Slots<T>, i: int, key: CacheKey) -> bool {
    &&& 0 <= i < s.len()
    &&& s[i] matches Some(c)
    &&& c.listed
    &&& c.key == key
}

/// The slot that is listed under `key`: the last such slot, if any.
pub open spec fn position<T>(s: Slots<T>, key: CacheKey) -> Option<int>
    decreases s.len(),
{
    if s.len() == 0 {
        None
    } else if lists(s, s.len() - 1, key) {
        Some(s.len() - 1)
    } else {
        position(s.drop_last(), key)
    }
}

/// The empty slot that the next channel goes into: the last one, if any.
pub open spec fn vacancy<T>(s: Slots<T>) -> Option<int>
    decreases s.len(),
{
    if s.len() == 0 {
        None
    } else if s.last() is None {
        Some(s.len() - 1)
    } else {
        vacancy(s.drop_last())
    }
}

/// The index at which the next channel will stand.
pub open spec fn next_index<T>(s: Slots<T>) -> int {
    match vacancy(s) {
        Some(f) => f,
        None => s.len() as int,
    }
}

/// The slots with one more channel.
pub open spec fn with_channel<T>(s: Slots<T>, c: Channel<T>) -> Slots<T> {
    match vacancy(s) {
        Some(f) => s.update(f, Some(c)),
        None => s.push(Some(c)),
    }
}

/// A caller can join the channel: its producer is at work and there is
/// room for one more receiver.
pub open spec fn joinable<T>(c: Channel<T>) -> bool {
    c.phase is Open && c.receivers < usize::MAX
}

/// The guard is in force: its slot holds the listed, open channel of its key.
pub open spec fn holds<T>(s: Slots<T>, guard: Guard) -> bool {
    &&& lists(s, guard.index as int, guard.key)
    &&& s[guard.index as int].unwrap().phase is Open
}

/// The ticket is in force: its slot holds a channel that counts receivers.
pub open spec fn admits<T>(s: Slots<T>, ticket: Ticket) -> bool {
    &&& 0 <= ticket.index < s.len()
    &&& s[ticket.index as int] matches Some(c)
    &&& c.receivers > 0
}

/// How many receivers wait for the guard's producer.
pub open spec fn waiting_for<T>(s: Slots<T>, guard: Guard) -> usize {
    if holds(s, guard) {
        s[guard.index as int].unwrap().receivers
    } else {
        0
    }
}

/// What `check` answers.
pub open spec fn check_outcome<T>(s: Slots<T>, key: CacheKey) -> Outcome {
    match position(s, key) {
        None => Outcome::Claim(Guard { index: next_index(s) as usize, key }),
        Some(p) => if joinable(s[p].unwrap()) {
            Outcome::JoinExisting(Ticket { index: p as usize })
        } else {
            Outcome::Retry
        },
    }
}

/// The slots after `check`.
pub open spec fn after_check<T>(s: Slots<T>, key: CacheKey) -> Slots<T> {
    match position(s, key) {
        None => with_channel(
            s,
            Channel { key, phase: Phase::Open, receivers: 0, listed: true },
        ),
        Some(p) => {
            let c = s[p].unwrap();
            if joinable(c) {
                s.update(p, Some(Channel { receivers: (c.receivers + 1) as usize, ..c }))
            } else {
                s
            }
        },
    }
}

/// The slots after the producer's end: the channel is `Sent` where a value
/// was published and someone waits for it, `Closed` otherwise.
pub open spec fn after_end<T>(s: Slots<T>, guard: Guard, value: Option<Arc<T>>) -> Slots<T> {
    if holds(s, guard) {
        let c = s[guard.index as int].unwrap();
        let phase = match value {
            Some(v) => if c.receivers > 0 {
                Phase::Sent(v)
            } else {
                Phase::Closed
            },
            None => Phase::Closed,
        };
        s.update(guard.index as int, Some(Channel { phase, ..c }))
    } else {
        s
    }
}

/// The slots after `remove`: a stale channel under the key is no longer
/// listed, and is gone where nobody waits for it.
pub open spec fn after_remove<T>(s: Slots<T>, key: CacheKey) -> Slots<T> {
    match position(s, key) {
        None => s,
        Some(p) => {
            let c = s[p].unwrap();
            if c.phase is Open {
                s
            } else if c.receivers == 0 {
                s.update(p, None)
            } else {
                s.update(p, Some(Channel { listed: false, ..c }))
            }
        },
    }
}

/// The slots after one receiver has left slot `i`.
pub open spec fn after_leave<T>(s: Slots<T>, i: int) -> Slots<T> {
    let c = s[i].unwrap();
    if c.receivers == 1 && !c.listed {
        s.update(i, None)
    } else {
        s.update(i, Some(Channel { receivers: (c.receivers - 1) as usize, ..c }))
    }
}

/// What `receive` answers.
pub open spec fn reception<T>(s: Slots<T>, ticket: Ticket) -> Reception<T> {
    if admits(s, ticket) {
        match s[ticket.index as int].unwrap().phase {
            Phase::Open => Reception::Pending(ticket),
            Phase::Sent(v) => Reception::Ready(v),
            Phase::Closed => Reception::Closed,
        }
    } else {
        Reception::Closed
    }
}

/// The slots after `receive`.
pub open spec fn after_receive<T>(s: Slots<T>, ticket: Ticket) -> Slots<T> {
    if admits(s, ticket) && !(s[ticket.index as int].unwrap().phase is Open) {
        after_leave(s, ticket.index as int)
    } else {
        s
    }
}

/// The slots after `cancel`.
pub open spec fn after_cancel<T>(s: Slots<T>, ticket: Ticket) -> Slots<T> {
    if admits(s, ticket) {
        after_leave(s, ticket.index as int)
    } else {
        s
    }
}

/// The registry is in order: no key is listed twice, every channel is
/// listed or waited for, and every open channel is listed.
pub open spec fn well_formed<T>(s: Slots<T>) -> bool {
    &&& forall|i: int, j: int, key: CacheKey|
        #![trigger lists(s, i, key), lists(s, j, key)]
        lists(s, i, key) && lists(s, j, key) ==> i == j
    &&& forall|i: int|
        0 <= i < s.len() ==> (#[trigger] s[i] matches Some(c) ==> (c.listed || c.receivers > 0)
            && (c.phase is Open ==> c.listed))
}

/// `position` finds a slot that lists the key, and none where no slot
/// lists it.
pub proof fn lemma_position<T>(s: Slots<T>, key: CacheKey)
    ensures
        match position(s, key) {
            Some(p) => lists(s, p, key) && forall|j: int| p < j < s.len() ==> !lists(s, j, key),
            None => forall|j: int| !lists(s, j, key),
        },
    decreases s.len(),
{
    if s.len() > 0 && !lists(s, s.len() - 1, key) {
        let front = s.drop_last();
        lemma_position(front, key);
        assert forall|j: int| 0 <= j < front.len() implies (lists(front, j, key) <==> lists(
            s,
            j,
            key,
        )) by {
            assert(front[j] == s[j]);
        }
        match position(front, key) {
            Some(p) => {
                assert(lists(front, p, key));
                assert forall|j: int| p < j < s.len() implies !lists(s, j, key) by {
                    if j < front.len() {
                        assert(!lists(front, j, key));
                    }
                }
            },
            None => {
                assert forall|j: int| !lists(s, j, key) by {
                    if 0 <= j < front.len() {
                        assert(!lists(front, j, key));
                    }
                }
            },
        }
    }
}

/// `vacancy` finds an empty slot, and none where every slot is taken.
pub proof fn lemma_vacancy<T>(s: Slots<T>)
    ensures
        match vacancy(s) {
            Some(f) => 0 <= f < s.len() && s[f] is None,
            None => forall|j: int| 0 <= j < s.len() ==> (#[trigger] s[j]) is Some,
        },
    decreases s.len(),
{
    if s.len() > 0 && s.last() is Some {
        let front = s.drop_last();
        lemma_vacancy(front);
        match vacancy(front) {
            Some(f) => {
                assert(front[f] == s[f]);
            },
            None => {
                assert forall|j: int| 0 <= j < s.len() implies (#[trigger] s[j]) is Some by {
                    if j < front.len() {
                        assert(front[j] == s[j]);
                    }
                }
            },
        }
    }
}

/// Asking for a key keeps the registry in order.
pub proof fn lemma_check_keeps_order<T>(s: Slots<T>, key: CacheKey)
    requires
        well_formed(s),
    ensures
        well_formed(after_check(s, key)),
{
    let t = after_check(s, key);
    lemma_position(s, key);
    lemma_vacancy(s);
    match position(s, key) {
        None => {
            let n = next_index(s);
            assert forall|i: int, k: CacheKey| lists(t, i, k) implies (i == n && k == key)
                || lists(s, i, k) by {
                if i != n {
                    assert(t[i] == s[i]);
                }
            }
            assert forall|i: int, j: int, k: CacheKey|
                #![trigger lists(t, i, k), lists(t, j, k)]
                lists(t, i, k) && lists(t, j, k) implies i == j by {
                if i != n && j != n {
                    assert(lists(s, i, k) && lists(s, j, k));
                }
            }
            assert forall|i: int| 0 <= i < t.len() implies (#[trigger] t[i] matches Some(c) ==> (
            c.listed || c.receivers > 0) && (c.phase is Open ==> c.listed)) by {
                if i != n {
                    assert(t[i] == s[i]);
                }
            }
        },
        Some(p) => {
            assert forall|i: int, k: CacheKey| lists(t, i, k) == lists(s, i, k) by {
                if 0 <= i < s.len() && i != p {
                    assert(t[i] == s[i]);
                }
            }
            assert forall|i: int, j: int, k: CacheKey|
                #![trigger lists(t, i, k), lists(t, j, k)]
                lists(t, i, k) && lists(t, j, k) implies i == j by {
                assert(lists(s, i, k) && lists(s, j, k));
            }
            assert forall|i: int| 0 <= i < t.len() implies (#[trigger] t[i] matches Some(c) ==> (
            c.listed || c.receivers > 0) && (c.phase is Open ==> c.listed)) by {
                if i != p {
                    assert(t[i] == s[i]);
                } else {
                    assert(s[p] is Some);
                }
            }
        },
    }
}

/// Claiming a key that is not listed puts its guard in force and leaves
/// every other slot as it was.
pub proof fn lemma_claim<T>(s: Slots<T>, key: CacheKey)
    requires
        position(s, key) is None,
        s.len() < usize::MAX,
    ensures
        check_outcome(s, key) == Outcome::Claim(Guard { index: next_index(s) as usize, key }),
        0 <= next_index(s) <= s.len(),
        holds(after_check(s, key), Guard { index: next_index(s) as usize, key }),
        after_check(s, key)[next_index(s)].unwrap().receivers == 0,
        after_check(s, key).len() >= s.len(),
        forall|j: int|
            0 <= j < s.len() && j != next_index(s) ==> #[trigger] after_check(s, key)[j] == s[j],
        forall|j: int| j != next_index(s) ==> !lists(after_check(s, key), j, key),
{
    lemma_position(s, key);
    lemma_vacancy(s);
    let t = after_check(s, key);
    let n = next_index(s);
    assert forall|j: int| j != n implies !lists(t, j, key) by {
        if 0 <= j < t.len() {
            assert(t[j] == s[j]);
            assert(!lists(s, j, key));
        }
    }
}

/// Claiming a key lists nothing under another key, and takes one slot
/// more at most.
pub proof fn lemma_claim_leaves_others<T>(s: Slots<T>, key: CacheKey, other: CacheKey)
    requires
        position(s, key) is None,
        position(s, other) is None,
        other != key,
    ensures
        position(after_check(s, key), other) is None,
        s.len() <= after_check(s, key).len() <= s.len() + 1,
{
    lemma_position(s, key);
    lemma_position(s, other);
    lemma_vacancy(s);
    let t = after_check(s, key);
    let n = next_index(s);
    lemma_position(t, other);
    assert forall|j: int| !lists(t, j, other) by {
        if 0 <= j < t.len() && j != n {
            assert(t[j] == s[j]);
            assert(!lists(s, j, other));
        }
    }
}

/// Ending the producer of a key and taking the key off the list leaves the
/// key unlisted, where the registry was in order.
pub proof fn lemma_end_unlists<T>(s: Slots<T>, guard: Guard, value: Option<Arc<T>>)
    requires
        holds(s, guard),
        forall|j: int| j != guard.index ==> !lists(s, j, guard.key),
    ensures
        position(after_remove(after_end(s, guard, value), guard.key), guard.key) is None,
        forall|j: int|
            0 <= j < s.len() && j != guard.index ==> #[trigger] after_remove(
                after_end(s, guard, value),
                guard.key,
            )[j] == s[j],
{
    let key = guard.key;
    let n = guard.index as int;
    let ended = after_end(s, guard, value);
    let freed = after_remove(ended, key);
    lemma_position(ended, key);
    assert(lists(ended, n, key));
    assert forall|j: int| j != n implies !lists(ended, j, key) by {
        if 0 <= j < ended.len() {
            assert(ended[j] == s[j]);
            assert(!lists(s, j, key));
        }
    }
    assert(position(ended, key) == Some(n));
    lemma_position(freed, key);
    assert forall|j: int| !lists(freed, j, key) by {
        if 0 <= j < freed.len() && j != n {
            assert(freed[j] == ended[j]);
            assert(!lists(ended, j, key));
        }
    }
}

/// In place of one slot's channel stands another, or nothing, that is
/// listed no more widely and keeps the slot in order.
proof fn lemma_narrowing_keeps_order<T>(s: Slots<T>, i: int, to: Option<Channel<T>>)
    requires
        well_formed(s),
        0 <= i < s.len(),
        s[i] is Some,
        to matches Some(c) ==> c.key == s[i].unwrap().key && (c.listed ==> s[i].unwrap().listed)
            && (c.listed || c.receivers > 0) && (c.phase is Open ==> c.listed),
    ensures
        well_formed(s.update(i, to)),
{
    let t = s.update(i, to);
    assert forall|j: int, k: CacheKey| lists(t, j, k) implies lists(s, j, k) by {
        if j != i {
            assert(t[j] == s[j]);
        }
    }
    assert forall|a: int, b: int, k: CacheKey|
        #![trigger lists(t, a, k), lists(t, b, k)]
        lists(t, a, k) && lists(t, b, k) implies a == b by {
        assert(lists(s, a, k) && lists(s, b, k));
    }
    assert forall|j: int| 0 <= j < t.len() implies (#[trigger] t[j] matches Some(c) ==> (c.listed
        || c.receivers > 0) && (c.phase is Open ==> c.listed)) by {
        if j != i {
            assert(t[j] == s[j]);
        }
    }
}

/// One entry of the listing: a key and the slot of its channel.
pub struct Listing {
    pub key: CacheKey,
    pub index: usize,
}

/// A channel as the registry keeps it. Whether it is listed is for the
/// listing to say.
pub struct Lane<T> {
    pub key: CacheKey,
    pub phase: Phase<T>,
    pub receivers: usize,
}

/// The slot that a bucket of the listing names for `key`: that of its
/// latest entry.
pub open spec fn pointer(entries: Seq<Listing>, key: CacheKey) -> Option<usize>
    decreases entries.len(),
{
    if entries.len() == 0 {
        None
    } else if entries.last().key == key {
        Some(entries.last().index)
    } else {
        pointer(entries.drop_last(), key)
    }
}

/// The slot that the listing names for `key`. The listing is a hash map
/// from the hash of an id to the entries with that hash.
pub open spec fn listed_at(listing: Map<u64, Vec<Listing>>, key: CacheKey) -> Option<usize> {
    if listing.contains_key(key.id) {
        pointer(listing[key.id]@, key)
    } else {
        None
    }
}

/// The slots that lanes and listing stand for: a channel is listed where
/// the listing names its slot for its key.
pub open spec fn slots_of<T>(lanes: Seq<Option<Lane<T>>>, listing: Map<u64, Vec<Listing>>) -> Slots<
    T,
> {
    Seq::new(
        lanes.len(),
        |i: int|
            match lanes[i] {
                Some(l) => Some(
                    Channel {
                        key: l.key,
                        phase: l.phase,
                        receivers: l.receivers,
                        listed: listed_at(listing, l.key) == Some(i as usize),
                    },
                ),
                None => None,
            },
    )
}

/// The slot that a bucket names for a key.
fn point(bucket: &Vec<Listing>, key: &CacheKey) -> (r: Option<usize>)
    ensures
        r == pointer(bucket@, *key),
{
    let mut i: usize = bucket.len();
    assert(bucket@.take(i as int) =~= bucket@);
    while i > 0
        invariant
            i <= bucket@.len(),
            pointer(bucket@, *key) == pointer(bucket@.take(i as int), *key),
        decreases i,
    {
        let ghost upto = bucket@.take(i as int);
        i -= 1;
        proof {
            assert(upto.drop_last() =~= bucket@.take(i as int));
            assert(upto.last() == bucket@[i as int]);
        }
        if bucket[i].key == *key {
            return Some(bucket[i].index);
        }
    }
    None
}

/// A bucket without the entries of a key.
fn without(bucket: Vec<Listing>, key: &CacheKey) -> (rest: Vec<Listing>)
    ensures
        pointer(rest@, *key) is None,
        forall|k: CacheKey| k != *key ==> #[trigger] pointer(rest@, k) == pointer(bucket@, k),
{
    let ghost all = bucket@;
    let mut rest: Vec<Listing> = Vec::new();
    for entry in it: bucket
        invariant
            it.seq() == all,
            pointer(rest@, *key) is None,
            forall|k: CacheKey|
                k != *key ==> #[trigger] pointer(rest@, k) == pointer(all.take(it.index()), k),
    {
        let ghost upto = all.take(it.index() + 1);
        let ghost kept = rest@;
        proof {
            assert(upto.drop_last() =~= all.take(it.index()));
            assert(upto.last() == entry);
        }
        if !(entry.key == *key) {
            proof {
                assert(kept.push(entry).drop_last() =~= kept);
                assert(kept.push(entry).last() == entry);
            }
            rest.push(entry);
        }
        proof {
            assert forall|k: CacheKey| k != *key implies #[trigger] pointer(rest@, k) == pointer(
                upto,
                k,
            ) by {
                assert(pointer(kept, k) == pointer(all.take(it.index()), k));
            }
        }
    }
    assert(all.take(all.len() as int) =~= all);
    rest
}

/// What a listing names, as a map from keys to slots.
pub open spec fn index_view(listing: Map<u64, Vec<Listing>>) -> Map<CacheKey, usize> {
    Map::new(
        |k: CacheKey| listed_at(listing, k) is Some,
        |k: CacheKey| listed_at(listing, k).unwrap(),
    )
}

/// The slot that a listing names for a key.
pub fn listing_get(listing: &HashMap<u64, Vec<Listing>>, key: &CacheKey) -> (r: Option<usize>)
    ensures
        r == listed_at(listing@, *key),
        r == if index_view(listing@).contains_key(*key) {
            Some(index_view(listing@)[*key])
        } else {
            None
        },
{
    broadcast use vstd::std_specs::hash::group_hash_axioms;

    match listing.get(&key.id) {
        Some(bucket) => point(bucket, key),
        None => None,
    }
}

/// Lists a key under a slot, or takes it off the list. Nothing changes
/// for any other key.
pub fn listing_set(listing: &mut HashMap<u64, Vec<Listing>>, key: &CacheKey, index: Option<usize>)
    ensures
        listed_at(final(listing)@, *key) == index,
        forall|k: CacheKey|
            k != *key ==> #[trigger] listed_at(final(listing)@, k) == listed_at(old(listing)@, k),
        index_view(final(listing)@) == match index {
            Some(i) => index_view(old(listing)@).insert(*key, i),
            None => index_view(old(listing)@).remove(*key),
        },
{
    broadcast use vstd::std_specs::hash::group_hash_axioms;

    let ghost before = listing@;
    let bucket = match listing.remove(&key.id) {
        Some(bucket) => bucket,
        None => Vec::new(),
    };
    let ghost was = bucket@;
    let mut rest = without(bucket, key);
    let ghost kept = rest@;
    match index {
        Some(i) => {
            let entry = Listing { key: *key, index: i };
            proof {
                assert(kept.push(entry).drop_last() =~= kept);
                assert(kept.push(entry).last() == entry);
            }
            rest.push(entry);
        },
        None => {},
    }
    assert forall|k: CacheKey| k != *key implies #[trigger] pointer(rest@, k) == pointer(
        was,
        k,
    ) by {
        assert(pointer(kept, k) == pointer(was, k));
    }
    listing.insert(key.id, rest);
    proof {
        let after = listing@;
        assert(after.contains_key(key.id) && after[key.id]@ == rest@);
        assert forall|k: CacheKey| k != *key implies #[trigger] listed_at(after, k) == listed_at(
            before,
            k,
        ) by {
            if k.id == key.id {
                if before.contains_key(key.id) {
                    assert(before[key.id]@ == was);
                } else {
                    assert(was =~= Seq::<Listing>::empty());
                }
            } else {
                assert(after.contains_key(k.id) == before.contains_key(k.id));
                if before.contains_key(k.id) {
                    assert(after[k.id] == before[k.id]);
                }
            }
        }
        let goal = match index {
            Some(i) => index_view(before).insert(*key, i),
            None => index_view(before).remove(*key),
        };
        assert forall|k: CacheKey| index_view(after).contains_key(k) == goal.contains_key(k) by {
            if k != *key {
                assert(listed_at(after, k) == listed_at(before, k));
            }
        }
        assert forall|k: CacheKey| index_view(after).contains_key(k) implies index_view(after)[k]
            == goal[k] by {
            if k != *key {
                assert(listed_at(after, k) == listed_at(before, k));
            }
        }
        assert(index_view(after) =~= goal);
    }
}

/// A registry of producers and of those who wait for them. The channels
/// stand in slots; which slot holds the channel of a key is looked up in a
/// hash map.
pub struct Inflight<T> {
    lanes: Vec<Option<Lane<T>>>,
    listing: HashMap<u64, Vec<Listing>>,
}

impl<T> Inflight<T> {
    /// The slots of the registry.
    pub closed spec fn view(&self) -> Slots<T> {
        slots_of(self.lanes@, self.listing@)
    }

    /// A registry that lists nothing.
    pub fn new() -> (registry: Self)
        ensures
            registry@ == Seq::<Option<Channel<T>>>::empty(),
            well_formed(registry@),
    {
        let registry = Inflight { lanes: Vec::new(), listing: HashMap::new() };
        assert(registry@ =~= Seq::<Option<Channel<T>>>::empty());
        registry
    }

    /// The slot that the listing names for a key.
    fn lookup(&self, key: &CacheKey) -> (r: Option<usize>)
        ensures
            r == listed_at(self.listing@, *key),
    {
        listing_get(&self.listing, key)
    }

    /// Lists a key under a slot, or takes it off the list.
    fn relist(&mut self, key: &CacheKey, index: Option<usize>)
        ensures
            final(self).lanes@ == old(self).lanes@,
            listed_at(final(self).listing@, *key) == index,
            forall|k: CacheKey|
                k != *key ==> #[trigger] listed_at(final(self).listing@, k) == listed_at(
                    old(self).listing@,
                    k,
                ),
    {
        listing_set(&mut self.listing, key, index);
    }

    /// Whether the lane in a slot is listed.
    fn is_listed(&self, index: usize) -> (b: bool)
        requires
            index < self@.len(),
            self@[index as int] is Some,
        ensures
            b == self@[index as int].unwrap().listed,
    {
        match &self.lanes[index] {
            Some(l) => match self.lookup(&l.key) {
                Some(i) => i == index,
                None => false,
            },
            None => false,
        }
    }

    fn find(&self, key: &CacheKey) -> (r: Option<usize>)
        ensures
            match r {
                Some(p) => position(self@, *key) == Some(p as int),
                None => position(self@, *key) is None,
            },
    {
        proof {
            lemma_position(self@, *key);
        }
        let n = self.lanes.len();
        match self.lookup(key) {
            Some(index) => {
                if index < n {
                    let here = match &self.lanes[index] {
                        Some(l) => l.key == *key,
                        None => false,
                    };
                    if here {
                        assert(lists(self@, index as int, *key));
                        Some(index)
                    } else {
                        None
                    }
                } else {
                    None
                }
            },
            None => None,
        }
    }

    fn find_vacancy(&self) -> (r: Option<usize>)
        ensures
            match r {
                Some(f) => vacancy(self@) == Some(f as int),
                None => vacancy(self@) is None,
            },
    {
        let mut i: usize = self.lanes.len();
        assert(self@.take(i as int) =~= self@);
        while i > 0
            invariant
                i <= self.lanes@.len(),
                self@.len() == self.lanes@.len(),
                vacancy(self@) == vacancy(self@.take(i as int)),
            decreases i,
        {
            let ghost upto = self@.take(i as int);
            i -= 1;
            proof {
                assert(upto.drop_last() =~= self@.take(i as int));
                assert(upto.last() == self@[i as int]);
            }
            if self.lanes[i].is_none() {
                return Some(i);
            }
        }
        None
    }

    /// Asks for `key`: claims it where nobody holds it, joins its producer
    /// where one is at work, and says `Retry` where the key is listed but
    /// stale.
    pub fn check(&mut self, key: CacheKey) -> (out: Outcome)
        ensures
            out == check_outcome(old(self)@, key),
            final(self)@ == after_check(old(self)@, key),
            well_formed(old(self)@) ==> well_formed(final(self)@),
    {
        let ghost before = self@;
        proof {
            lemma_position(before, key);
            lemma_vacancy(before);
            if well_formed(before) {
                lemma_check_keeps_order(before, key);
            }
        }
        let out = match self.find(&key) {
            None => {
                let lane = Lane { key, phase: Phase::Open, receivers: 0 };
                let ghost lanes_before = self.lanes@;
                let ghost listing_before = self.listing@;
                let index = match self.find_vacancy() {
                    Some(f) => {
                        self.lanes.set(f, Some(lane));
                        f
                    },
                    None => {
                        let index = self.lanes.len();
                        self.lanes.push(Some(lane));
                        index
                    },
                };
                let ghost lanes_mid = self.lanes@;
                let n = self.lanes.len();
                self.relist(&key, Some(index));
                proof {
                    let expected = after_check(before, key);
                    assert(index as int == next_index(before));
                    assert(self.lanes@ == lanes_mid);
                    assert(self@.len() == expected.len());
                    assert forall|j: int| 0 <= j < self@.len() implies self@[j] == expected[j] by {
                        assert(j < n && (j as usize) as int == j);
                        if j != index {
                            assert(lanes_mid[j] == lanes_before[j]);
                            assert(expected[j] == before[j]);
                            match lanes_before[j] {
                                Some(l) => {
                                    if l.key == key {
                                        assert(!lists(before, j, key));
                                        assert(!before[j].unwrap().listed);
                                    } else {
                                        assert(listed_at(self.listing@, l.key) == listed_at(
                                            listing_before,
                                            l.key,
                                        ));
                                    }
                                },
                                None => {},
                            }
                        } else {
                            assert(lanes_mid[j] == Some(lane));
                            assert(listed_at(self.listing@, key) == Some(index));
                        }
                    }
                    assert(self@ =~= expected);
                }
                Outcome::Claim(Guard { index, key })
            },
            Some(p) => {
                let out = match &mut self.lanes[p] {
                    Some(l) => {
                        if matches!(l.phase, Phase::Open) && l.receivers < usize::MAX {
                            l.receivers = l.receivers + 1;
                            Outcome::JoinExisting(Ticket { index: p })
                        } else {
                            Outcome::Retry
                        }
                    },
                    None => Outcome::Retry,
                };
                assert(self@ =~= after_check(before, key));
                out
            },
        };
        out
    }

    fn end(&mut self, guard: Guard, value: Option<Arc<T>>) -> (waiting: usize)
        ensures
            final(self)@ == after_end(old(self)@, guard, value),
            waiting == waiting_for(old(self)@, guard),
            well_formed(old(self)@) ==> well_formed(final(self)@),
    {
        let ghost before = self@;
        let mut waiting: usize = 0;
        if guard.index < self.lanes.len() {
            let at_work = match &self.lanes[guard.index] {
                Some(l) => l.key == guard.key && matches!(l.phase, Phase::Open),
                None => false,
            };
            if at_work && self.is_listed(guard.index) {
                match &mut self.lanes[guard.index] {
                    Some(l) => {
                        waiting = l.receivers;
                        l.phase = match value {
                            Some(v) => if l.receivers > 0 {
                                Phase::Sent(v)
                            } else {
                                Phase::Closed
                            },
                            None => Phase::Closed,
                        };
                    },
                    None => {},
                }
            }
        }
        proof {
            assert(self@ =~= after_end(before, guard, value));
            if well_formed(before) && holds(before, guard) {
                lemma_narrowing_keeps_order(before, guard.index as int, self@[guard.index as int]);
            }
        }
        waiting
    }

    /// Ends the producer with a value. Those who joined will receive it.
    /// Says how many of them there are. A guard that is not in force
    /// changes nothing.
    pub fn publish(&mut self, guard: Guard, value: Arc<T>) -> (waiting: usize)
        ensures
            final(self)@ == after_end(old(self)@, guard, Some(value)),
            waiting == waiting_for(old(self)@, guard),
            well_formed(old(self)@) ==> well_formed(final(self)@),
    {
        self.end(guard, Some(value))
    }

    /// Ends the producer without a value. Those who joined will find the
    /// channel closed. A guard that is not in force changes nothing.
    pub fn release(&mut self, guard: Guard)
        ensures
            final(self)@ == after_end(old(self)@, guard, None),
            well_formed(old(self)@) ==> well_formed(final(self)@),
    {
        self.end(guard, None);
    }

    /// Takes a stale key off the list, so that it can be claimed again. A
    /// key whose producer is at work stays.
    pub fn remove(&mut self, key: &CacheKey)
        ensures
            final(self)@ == after_remove(old(self)@, *key),
            well_formed(old(self)@) ==> well_formed(final(self)@),
    {
        let ghost before = self@;
        proof {
            lemma_position(before, *key);
        }
        match self.find(key) {
            Some(p) => {
                let ghost lanes_before = self.lanes@;
                let ghost listing_before = self.listing@;
                let n = self.lanes.len();
                assert(lists(before, p as int, *key));
                let (stale, waited) = match &self.lanes[p] {
                    Some(l) => (!matches!(l.phase, Phase::Open), l.receivers > 0),
                    None => (false, false),
                };
                if stale {
                    if !waited {
                        self.lanes.set(p, None);
                    }
                    let ghost lanes_mid = self.lanes@;
                    self.relist(key, None);
                    assert(self.lanes@ == lanes_mid);
                }
                proof {
                    let expected = after_remove(before, *key);
                    assert(self@.len() == expected.len());
                    assert forall|j: int| 0 <= j < self@.len() implies self@[j] == expected[j] by {
                        assert(j < n && (j as usize) as int == j);
                        if stale {
                            if j != p {
                                assert(self.lanes@[j] == lanes_before[j]);
                                assert(expected[j] == before[j]);
                                match lanes_before[j] {
                                    Some(l) => {
                                        if l.key == *key {
                                            assert(listed_at(listing_before, *key) == Some(p));
                                            assert(!before[j].unwrap().listed);
                                        } else {
                                            assert(listed_at(self.listing@, l.key) == listed_at(
                                                listing_before,
                                                l.key,
                                            ));
                                        }
                                    },
                                    None => {},
                                }
                            } else {
                                assert(listed_at(self.listing@, *key) is None);
                            }
                        }
                    }
                    assert(self@ =~= expected);
                    if well_formed(before) && stale {
                        lemma_narrowing_keeps_order(before, p as int, self@[p as int]);
                    }
                }
            },
            None => {},
        }
    }

    fn leave(&mut self, index: usize)
        requires
            admits(old(self)@, Ticket { index }),
        ensures
            final(self)@ == after_leave(old(self)@, index as int),
            well_formed(old(self)@) ==> well_formed(final(self)@),
    {
        let ghost before = self@;
        let listed = self.is_listed(index);
        let last = match &self.lanes[index] {
            Some(l) => l.receivers == 1 && !listed,
            None => false,
        };
        if last {
            self.lanes.set(index, None);
        } else {
            match &mut self.lanes[index] {
                Some(l) => {
                    l.receivers = l.receivers - 1;
                },
                None => {},
            }
        }
        proof {
            assert(self@ =~= after_leave(before, index as int));
            if well_formed(before) {
                lemma_narrowing_keeps_order(before, index as int, self@[index as int]);
            }
        }
    }

    /// Looks for the result that a ticket waits for. While the producer is
    /// at work the ticket comes back; otherwise the ticket is used up.
    pub fn receive(&mut self, ticket: Ticket) -> (r: Reception<T>)
        ensures
            r == reception(old(self)@, ticket),
            final(self)@ == after_receive(old(self)@, ticket),
            well_formed(old(self)@) ==> well_formed(final(self)@),
    {
        if ticket.index >= self.lanes.len() {
            return Reception::Closed;
        }
        let found = match &self.lanes[ticket.index] {
            Some(l) => {
                if l.receivers > 0 {
                    match &l.phase {
                        Phase::Open => Found::Pending,
                        Phase::Sent(v) => Found::Ready(share(v)),
                        Phase::Closed => Found::Closed,
                    }
                } else {
                    Found::Void
                }
            },
            None => Found::Void,
        };
        match found {
            Found::Void => Reception::Closed,
            Found::Pending => Reception::Pending(ticket),
            Found::Ready(v) => {
                self.leave(ticket.index);
                Reception::Ready(v)
            },
            Found::Closed => {
                self.leave(ticket.index);
                Reception::Closed
            },
        }
    }

    /// Gives a ticket back without taking a result.
    pub fn cancel(&mut self, ticket: Ticket)
        ensures
            final(self)@ == after_cancel(old(self)@, ticket),
            well_formed(old(self)@) ==> well_formed(final(self)@),
    {
        if ticket.index < self.lanes.len() {
            let counted = match &self.lanes[ticket.index] {
                Some(l) => l.receivers > 0,
                None => false,
            };
            if counted {
                self.leave(ticket.index);
            }
        }
    }
}

enum Found<T> {
    Void,
    Pending,
    Ready(Arc<T>),
    Closed,
}

} // verus!
