//! When a response stops being fresh.
//!
//! Instants are whole seconds since the Unix epoch; durations are whole
//! seconds. An expiry that would lie beyond what an `i64` holds is the
//! nearest instant that it holds. No clock is read here: the caller says
//! what time it is.
use vstd::prelude::*;
use vstd::string::*;
use crate::http::{first_value, get_header, Header, Response};
use crate::numbers::{parse_i64, signed_value};

verus! {

/// How long a response is kept where neither the caller nor the server says.
pub const DEFAULT_EXPIRY_SECONDS: i64 = 300;

/// The seconds that the `cache-control` header gives: its whole value read
/// as an integer, or 300 where the header is missing or is no integer.
pub open spec fn expire_seconds_of(headers: Seq<Header>) -> i64 {
    match first_value(headers, "cache-control"@) {
        Some(v) => match signed_value(vstd::utf8::encode_utf8(v)) {
            Some(n) => n,
            None => 300,
        },
        None => 300,
    }
}

/// The instant nearest to `t` that an `i64` holds.
pub open spec fn nearest_instant(t: int) -> i64 {
    if t > i64::MAX {
        i64::MAX
    } else if t < i64::MIN {
        i64::MIN
    } else {
        t as i64
    }
}

/// The instant at which a response received at `now` expires: `now` plus the
/// caller's cache duration where that is positive, else `now` plus what the
/// response's headers give.
pub open spec fn expiry_of(now: i64, cache_duration: u64, headers: Seq<Header>) -> i64 {
    if cache_duration > 0 {
        nearest_instant(now + cache_duration)
    } else {
        nearest_instant(now + expire_seconds_of(headers))
    }
}

/// The seconds for which the server lets a response be kept.
pub fn get_expire_from_header(response: &Response) -> (seconds: i64)
    ensures
        seconds == expire_seconds_of(response.headers@),
{
    match get_header(response, "cache-control") {
        Some(v) => match parse_i64(v) {
            Some(n) => n,
            None => DEFAULT_EXPIRY_SECONDS,
        },
        None => DEFAULT_EXPIRY_SECONDS,
    }
}

/// The instant at which a response received at `now` expires.
pub fn get_cache_expiry(now: i64, cache_duration: u64, response: &Response) -> (expires: i64)
    ensures
        expires == expiry_of(now, cache_duration, response.headers@),
{
    let seconds: i128 = if cache_duration > 0 {
        cache_duration as i128
    } else {
        get_expire_from_header(response) as i128
    };
    let t: i128 = now as i128 + seconds;
    if t > i64::MAX as i128 {
        i64::MAX
    } else if t < i64::MIN as i128 {
        i64::MIN
    } else {
        t as i64
    }
}

/// A duration in whole seconds, as a cache duration is given: a duration
/// that is not positive is none (0), and a positive one is rounded up, so
/// that the least of them is one second.
pub open spec fn whole_seconds(seconds: i64, subsec_nanos: i32) -> u64 {
    if seconds < 0 || (seconds == 0 && subsec_nanos <= 0) {
        0
    } else if subsec_nanos > 0 && seconds < i64::MAX {
        (seconds + 1) as u64
    } else {
        seconds as u64
    }
}

/// Turns a duration, given as whole seconds and the nanoseconds beyond
/// them, into a cache duration.
pub fn cache_duration_seconds(seconds: i64, subsec_nanos: i32) -> (d: u64)
    ensures
        d == whole_seconds(seconds, subsec_nanos),
        d > 0 <==> (seconds > 0 || (seconds == 0 && subsec_nanos > 0)),
{
    if seconds < 0 || (seconds == 0 && subsec_nanos <= 0) {
        0
    } else if subsec_nanos > 0 && seconds < i64::MAX {
        (seconds + 1) as u64
    } else {
        seconds as u64
    }
}

} // verus!
