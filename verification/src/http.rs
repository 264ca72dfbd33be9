//! Requests and responses as plain values, and the rules by which a request
//! is put together.
//!
//! A request is always a `GET` with an empty body, so it is its URL and its
//! headers. Of a response the core reads the headers only.
use vstd::prelude::*;
use vstd::string::*;
use crate::endpoint::Endpoint;
use crate::error::EndpointError;
use crate::language::Language;
use crate::numbers::{parse_usize, unsigned_value};

verus! {

/// One header line.
#[derive(Clone, Debug, PartialEq, Eq)]
pub struct Header {
    pub name: String,
    pub value: String,
}

/// A `GET` request with an empty body.
#[derive(Clone, Debug, PartialEq, Eq)]
pub struct Request {
    pub url: String,
    pub headers: Vec<Header>,
}

/// The head of a response: its status code and its headers. Header names
/// are expected in lower case, as HTTP libraries hand them out.
#[derive(Clone, Debug, PartialEq, Eq)]
pub struct Response {
    pub status: u16,
    pub headers: Vec<Header>,
}

/// What configures a client: where the API lives, the language to ask for
/// and the api key, if there is one.
#[derive(Clone, Debug, PartialEq, Eq)]
pub struct Client {
    pub host: String,
    pub language: Language,
    pub api_key: Option<String>,
}

/// A header as a pair of texts.
pub open spec fn header_pair(h: Header) -> (Seq<char>, Seq<char>) {
    (h.name@, h.value@)
}

/// The value of the first header with the given name.
pub open spec fn first_value(headers: Seq<Header>, name: Seq<char>) -> Option<Seq<char>>
    decreases headers.len(),
{
    if headers.len() == 0 {
        None
    } else if headers[0].name@ == name {
        Some(headers[0].value@)
    } else {
        first_value(headers.skip(1), name)
    }
}

/// The query string of a request: the language, where the endpoint is
/// locale-sensitive, then the caller's own parameters, joined by `&`.
/// Empty where there is neither.
pub open spec fn query_string(locale: bool, language: Language, extra: Option<Seq<char>>) -> Seq<
    char,
> {
    let lang = seq!['l', 'a', 'n', 'g', '='] + language.code();
    match extra {
        Some(q) => if locale {
            lang + seq!['&'] + q
        } else {
            q
        },
        None => if locale {
            lang
        } else {
            Seq::empty()
        },
    }
}

/// A URL with query parameters added: behind a `?` where the URL has no
/// query yet, behind a `&` where it has one. Unchanged where there is
/// nothing to add.
pub open spec fn with_query(url: Seq<char>, locale: bool, language: Language, extra: Option<
    Seq<char>,
>) -> Seq<char> {
    if !locale && extra is None {
        url
    } else if url.contains('?') {
        url + seq!['&'] + query_string(locale, language, extra)
    } else {
        url + seq!['?'] + query_string(locale, language, extra)
    }
}

/// The headers of a request: the schema version, then the bearer token
/// where the endpoint is authenticated.
pub open spec fn request_headers(version: Seq<char>, authenticated: bool, api_key: Seq<char>) -> Seq<
    (Seq<char>, Seq<char>),
> {
    let schema = ("X-Schema-Version"@, version);
    if authenticated {
        seq![schema, ("Authorization"@, "Bearer "@ + api_key)]
    } else {
        seq![schema]
    }
}

/// Whether a request for the endpoint can be built with the given api key.
pub open spec fn may_request(authenticated: bool, api_key: Option<String>) -> bool {
    !authenticated || api_key is Some
}

/// The text of an api key; empty where there is none.
pub open spec fn key_text(api_key: Option<String>) -> Seq<char> {
    match api_key {
        Some(k) => k@,
        None => Seq::empty(),
    }
}

/// `request` is the request that `client` sends to endpoint `T` at `url`
/// with the given extra query parameters.
pub open spec fn request_for<T: Endpoint>(
    request: Request,
    client: Client,
    url: Seq<char>,
    extra: Option<Seq<char>>,
) -> bool {
    &&& request.url@ == with_query(url, T::LOCALE, client.language, extra)
    &&& request.headers@.map_values(|h: Header| header_pair(h)) == request_headers(
        T::VERSION@,
        T::AUTHENTICATED,
        key_text(client.api_key),
    )
}

/// Whether a text holds a question mark. A text of ASCII characters, as
/// URLs are, is searched byte by byte.
fn has_query(url: &str) -> (b: bool)
    ensures
        b == url@.contains('?'),
{
    if url.is_ascii() {
        let bytes = url.as_bytes();
        proof {
            is_ascii_spec_bytes(url);
        }
        let mut i: usize = 0;
        while i < bytes.len()
            invariant
                i <= bytes.len(),
                bytes@.len() == url@.len(),
                is_ascii(url),
                forall|j: int| 0 <= j < bytes@.len() ==> bytes@[j] == url@[j] as u8,
                forall|j: int| 0 <= j < i ==> url@[j] != '?',
            decreases bytes.len() - i,
        {
            if bytes[i] == 63 {
                assert(url@[i as int] == '?') by {
                    let c = url@[i as int];
                    assert('\0' <= c <= '\u{7f}');
                    assert(c as u8 == 63u8);
                    assert('?' as u8 == 63u8);
                }
                return true;
            }
            assert(url@[i as int] != '?') by {
                assert('?' as u8 == 63u8);
            }
            i += 1;
        }
        return false;
    }
    let n = url.unicode_len();
    let mut i: usize = 0;
    while i < n
        invariant
            n == url@.len(),
            i <= n,
            forall|j: int| 0 <= j < i ==> url@[j] != '?',
        decreases n - i,
    {
        if url.get_char(i) == '?' {
            return true;
        }
        i += 1;
    }
    false
}

/// Builds the request for an endpoint.
///
/// Fails with `NotAuthenticated`, and builds nothing, exactly where the
/// endpoint is authenticated and the client has no api key.
pub fn build_request<T: Endpoint>(client: &Client, url: &str, extra_queries: Option<String>) -> (r:
    Result<Request, EndpointError>)
    ensures
        !may_request(T::AUTHENTICATED, client.api_key) ==> r == Err::<Request, EndpointError>(
            EndpointError::NotAuthenticated,
        ),
        may_request(T::AUTHENTICATED, client.api_key) ==> r is Ok,
        r matches Ok(request) ==> request_for::<T>(
            request,
            *client,
            url@,
            match extra_queries {
                Some(q) => Some(q@),
                None => None,
            },
        ),
{
    let mut headers: Vec<Header> = Vec::new();
    headers.push(
        Header { name: String::from_str("X-Schema-Version"), value: String::from_str(T::VERSION) },
    );
    if T::AUTHENTICATED {
        match &client.api_key {
            None => {
                return Err(EndpointError::NotAuthenticated);
            },
            Some(key) => {
                let mut value = String::from_str("Bearer ");
                value.append(key.as_str());
                headers.push(Header { name: String::from_str("Authorization"), value });
            },
        }
    }
    let mut full = String::from_str(url);
    let has_args = T::LOCALE || extra_queries.is_some();
    if has_args {
        proof {
            reveal_strlit("&");
            reveal_strlit("?");
            reveal_strlit("lang=");
        }
        if has_query(url) {
            full.append("&");
        } else {
            full.append("?");
        }
        if T::LOCALE {
            full.append("lang=");
            full.append(client.language.as_str());
        }
        match &extra_queries {
            Some(q) => {
                if T::LOCALE {
                    full.append("&");
                }
                full.append(q.as_str());
            },
            None => {},
        }
        assert("&"@ =~= seq!['&']);
        assert("?"@ =~= seq!['?']);
        assert("lang="@ =~= seq!['l', 'a', 'n', 'g', '=']);
    }
    let request = Request { url: full, headers };
    proof {
        let extra = match extra_queries {
            Some(q) => Some(q@),
            None => None,
        };
        assert(request.url@ =~= with_query(url@, T::LOCALE, client.language, extra));
        assert(request.headers@.map_values(|h: Header| header_pair(h)) =~= request_headers(
            T::VERSION@,
            T::AUTHENTICATED,
            key_text(client.api_key),
        ));
    }
    Ok(request)
}

/// Whether a status code says that the request succeeded: 200 up to 299.
pub open spec fn succeeded(status: u16) -> bool {
    200 <= status < 300
}

/// Lets an answer with a status of success pass and turns any other into
/// the error `Api`. The body of an answer that does not pass is an error
/// payload, not a value: it is not to be decoded and nothing of it is to be
/// stored.
pub fn accept(status: u16) -> (r: Result<(), EndpointError>)
    ensures
        succeeded(status) ==> r is Ok,
        !succeeded(status) ==> r == Err::<(), EndpointError>(EndpointError::Api),
{
    if 200 <= status && status < 300 {
        Ok(())
    } else {
        Err(EndpointError::Api)
    }
}

/// The value of the first header of the response with the given name.
pub fn get_header<'a>(response: &'a Response, header: &str) -> (r: Option<&'a str>)
    ensures
        match r {
            Some(v) => first_value(response.headers@, header@) == Some(v@),
            None => first_value(response.headers@, header@) is None,
        },
{
    let name = String::from_str(header);
    let n = response.headers.len();
    let mut i: usize = 0;
    assert(response.headers@.skip(0) =~= response.headers@);
    while i < n
        invariant
            n == response.headers@.len(),
            i <= n,
            name@ == header@,
            first_value(response.headers@, header@) == first_value(
                response.headers@.skip(i as int),
                header@,
            ),
        decreases n - i,
    {
        let ghost rest = response.headers@.skip(i as int);
        assert(rest[0] == response.headers@[i as int]);
        if response.headers[i].name == name {
            return Some(response.headers[i].value.as_str());
        }
        assert(rest.skip(1) =~= response.headers@.skip(i + 1));
        i += 1;
    }
    None
}

/// The count that the `x-result-total` header gives; 0 where the header is
/// missing or is no count.
pub open spec fn result_total_of(headers: Seq<Header>) -> usize {
    match first_value(headers, "x-result-total"@) {
        Some(v) => match unsigned_value(vstd::utf8::encode_utf8(v)) {
            Some(n) => n,
            None => 0,
        },
        None => 0,
    }
}

/// How many items the server has in all, by the `x-result-total` header.
pub fn result_total(response: &Response) -> (n: usize)
    ensures
        n == result_total_of(response.headers@),
{
    match get_header(response, "x-result-total") {
        Some(v) => match parse_usize(v) {
            Some(n) => n,
            None => 0,
        },
        None => 0,
    }
}

} // verus!
