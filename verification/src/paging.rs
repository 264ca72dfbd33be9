//! Requests for whole endpoints: page by page, or all ids at once.
use vstd::prelude::*;
use vstd::string::*;
use std::sync::Arc;
use crate::bulk::{cache_response_many, shares, stored_all};
use crate::chunks::chunk_count;
use crate::endpoint::{endpoint_url, format_endpoint_url, BulkEndpoint};
use crate::error::EndpointError;
use crate::expiry::expiry_of;
use crate::http::{
    build_request, may_request, request_for, result_total, result_total_of, succeeded, Client,
    Request, Response,
};
use crate::ids::{decimal, push_decimal};
use crate::requester::Store;

verus! {

/// The size of the pages in which a whole endpoint is fetched.
pub const PAGE_SIZE: u8 = 200;

/// The query parameters that ask for one page.
pub open spec fn page_query(page: nat, page_size: nat) -> Seq<char> {
    seq!['p', 'a', 'g', 'e', '='] + decimal(page) + seq![
        '&',
        'p',
        'a',
        'g',
        'e',
        '_',
        's',
        'i',
        'z',
        'e',
        '=',
    ] + decimal(page_size)
}

/// What a request that is gated by a flag of the endpoint comes to:
/// `UnsupportedEndpointQuery` where the endpoint lacks the flag,
/// `NotAuthenticated` where it has the flag and a key is needed and
/// missing, and otherwise the request for the endpoint's URL with the given
/// query.
pub open spec fn gated<T: BulkEndpoint>(
    r: Result<Request, EndpointError>,
    supported: bool,
    client: Client,
    query: Seq<char>,
) -> bool {
    if !supported {
        r matches Err(e) && e == EndpointError::UnsupportedEndpointQuery
    } else if !may_request(T::AUTHENTICATED, client.api_key) {
        r matches Err(e) && e == EndpointError::NotAuthenticated
    } else {
        r matches Ok(request) && request_for::<T>(
            request,
            client,
            endpoint_url(client.host@, T::URL@),
            Some(query),
        )
    }
}

/// Builds the request for one page of an endpoint. Pages are counted
/// from 0.
pub fn page<T: BulkEndpoint>(client: &Client, index: usize, page_size: u8) -> (r: Result<
    Request,
    EndpointError,
>)
    ensures
        gated::<T>(r, T::PAGING, *client, page_query(index as nat, page_size as nat)),
{
    if !T::PAGING {
        return Err(EndpointError::UnsupportedEndpointQuery);
    }
    let url = format_endpoint_url(client.host.as_str(), T::URL);
    proof {
        reveal_strlit("page=");
        reveal_strlit("&page_size=");
    }
    let mut queries = String::from_str("page=");
    push_decimal(&mut queries, index as u64);
    queries.append("&page_size=");
    push_decimal(&mut queries, page_size as u64);
    assert(queries@ =~= page_query(index as nat, page_size as nat));
    build_request::<T>(client, url.as_str(), Some(queries))
}

/// Takes in the decoded response to a page or to `ids=all`: every item is
/// stored under its own id and appended to `result`. Returns the number of
/// items that the server has in all. A response whose status is not one of
/// success fails with `Api`: nothing is stored and nothing appended.
pub fn page_response<T: BulkEndpoint>(
    client: &Client,
    cache_duration: u64,
    store: &mut Store<T>,
    response: &Response,
    items: Vec<T>,
    result: &mut Vec<Arc<T>>,
    now: i64,
) -> (r: Result<usize, EndpointError>)
    ensures
        final(store).inflight@ == old(store).inflight@,
        match r {
            Ok(count) => {
                &&& succeeded(response.status)
                &&& count == result_total_of(response.headers@)
                &&& final(result)@.len() == old(result)@.len() + items@.len()
                &&& final(result)@.take(old(result)@.len() as int) == old(result)@
                &&& shares(final(result)@.skip(old(result)@.len() as int), items@)
                &&& final(store).cache@ == stored_all::<T>(
                    old(store).cache@,
                    final(result)@.skip(old(result)@.len() as int),
                    client.language,
                    expiry_of(now, cache_duration, response.headers@),
                )
            },
            Err(e) => {
                &&& !succeeded(response.status)
                &&& e == EndpointError::Api
                &&& final(result)@ == old(result)@
                &&& final(store).cache@ == old(store).cache@
            },
        },
{
    let count = result_total(response);
    match cache_response_many::<T>(client, cache_duration, store, response, items, result, now) {
        Ok(()) => Ok(count),
        Err(e) => Err(e),
    }
}

/// How many pages of 200 follow the first, for an endpoint of `total`
/// items.
pub open spec fn pages_after_first(total: nat) -> nat {
    if total <= 200 {
        0
    } else {
        chunk_count((total - 200) as nat)
    }
}

/// How many pages are still to fetch once the first page of 200 has said
/// how many items there are. They are pages 1 up to this number.
pub fn remaining_pages(total: usize) -> (pages: usize)
    ensures
        pages == pages_after_first(total as nat),
{
    let remaining: usize = if total > 200 {
        total - 200
    } else {
        0
    };
    if remaining % 200 != 0 {
        remaining / 200 + 1
    } else {
        remaining / 200
    }
}

/// The first request of a walk through all pages: page 0, with 200 items.
/// It fails with `UnsupportedEndpointQuery` where the endpoint has no
/// pages.
pub fn get_all_by_paging<T: BulkEndpoint>(client: &Client) -> (r: Result<Request, EndpointError>)
    ensures
        gated::<T>(r, T::PAGING, *client, page_query(0, 200)),
{
    if !T::PAGING {
        return Err(EndpointError::UnsupportedEndpointQuery);
    }
    page::<T>(client, 0, PAGE_SIZE)
}

/// The page that a walk through all pages asks for once `fetched` pages
/// are taken in: page `fetched`, with 200 items, as long as it is the first
/// page or one of the pages that follow it; none once the walk is over.
pub open spec fn page_due(total: nat, fetched: nat) -> Option<nat> {
    if fetched == 0 || fetched <= pages_after_first(total) {
        Some(fetched)
    } else {
        None
    }
}

/// The next request of a walk through all pages. `fetched` is the number
/// of pages taken in so far and `total` the number of items that the first
/// page reported; before the first page `total` does not matter. The walk
/// asks for page 0, then for pages 1 up to `pages_after_first(total)`, in
/// order, each with 200 items, and is then over.
pub fn next_page<T: BulkEndpoint>(client: &Client, total: usize, fetched: usize) -> (r: Option<
    Result<Request, EndpointError>,
>)
    ensures
        match page_due(total as nat, fetched as nat) {
            Some(index) => r matches Some(request) && gated::<T>(
                request,
                T::PAGING,
                *client,
                page_query(index, 200),
            ),
            None => r is None,
        },
{
    if fetched == 0 || fetched <= remaining_pages(total) {
        Some(page::<T>(client, fetched, PAGE_SIZE))
    } else {
        None
    }
}

/// The query parameter that asks for every item.
pub open spec fn ids_all_query() -> Seq<char> {
    seq!['i', 'd', 's', '=', 'a', 'l', 'l']
}

/// The request for all items at once, by `ids=all`. It fails with
/// `UnsupportedEndpointQuery` where the endpoint does not take `ids=all`.
pub fn get_all_by_ids_all<T: BulkEndpoint>(client: &Client) -> (r: Result<Request, EndpointError>)
    ensures
        gated::<T>(r, T::ALL, *client, ids_all_query()),
{
    if !T::ALL {
        return Err(EndpointError::UnsupportedEndpointQuery);
    }
    let url = format_endpoint_url(client.host.as_str(), T::URL);
    proof {
        reveal_strlit("ids=all");
    }
    let query = String::from_str("ids=all");
    assert(query@ =~= ids_all_query());
    build_request::<T>(client, url.as_str(), Some(query))
}

} // verus!
