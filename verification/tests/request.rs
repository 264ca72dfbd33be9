use gw2api_http::endpoint::format_endpoint_url;
use gw2api_http::http::{accept, build_request, get_header, result_total};
use gw2api_http::{Client, Endpoint, EndpointError, Header, Language, Response};

struct Open;

impl Endpoint for Open {
    const AUTHENTICATED: bool = false;
    const LOCALE: bool = false;
    const URL: &'static str = "v2/build";
    const VERSION: &'static str = "2019-02-21T00:00:00.000Z";
}

struct Localized;

impl Endpoint for Localized {
    const AUTHENTICATED: bool = false;
    const LOCALE: bool = true;
    const URL: &'static str = "v2/items";
    const VERSION: &'static str = "2022-07-22T00:00:00.000Z";
}

struct Private;

impl Endpoint for Private {
    const AUTHENTICATED: bool = true;
    const LOCALE: bool = true;
    const URL: &'static str = "v2/characters";
    const VERSION: &'static str = "2022-07-22T00:00:00.000Z";
}

fn client(language: Language, api_key: Option<&str>) -> Client {
    Client { host: String::from("https://api.guildwars2.com"), language, api_key: api_key.map(String::from) }
}

fn header(name: &str, value: &str) -> Header {
    Header { name: String::from(name), value: String::from(value) }
}

#[test]
fn request_without_parameters_keeps_the_url() {
    let request = build_request::<Open>(&client(Language::De, None), "https://h/v2/build", None).unwrap();
    assert_eq!(request.url, "https://h/v2/build");
    assert_eq!(request.headers, vec![header("X-Schema-Version", "2019-02-21T00:00:00.000Z")]);
}

#[test]
fn request_carries_language_then_extras() {
    let c = client(Language::De, None);
    let only_lang = build_request::<Localized>(&c, "https://h/v2/items", None).unwrap();
    assert_eq!(only_lang.url, "https://h/v2/items?lang=de");
    let both = build_request::<Localized>(&c, "https://h/v2/items", Some(String::from("ids=1,2,3"))).unwrap();
    assert_eq!(both.url, "https://h/v2/items?lang=de&ids=1,2,3");
    let only_extra = build_request::<Open>(&c, "https://h/v2/build", Some(String::from("page=0&page_size=200"))).unwrap();
    assert_eq!(only_extra.url, "https://h/v2/build?page=0&page_size=200");
}

#[test]
fn request_languages() {
    for (language, code) in [
        (Language::En, "en"),
        (Language::Fr, "fr"),
        (Language::De, "de"),
        (Language::Es, "es"),
        (Language::Zh, "zh"),
    ] {
        assert_eq!(language.as_str(), code);
        let request = build_request::<Localized>(&client(language, None), "u", None).unwrap();
        assert_eq!(request.url, format!("u?lang={}", code));
    }
    assert_eq!(Language::default(), Language::En);
}

#[test]
fn request_appends_to_a_query_that_is_there() {
    let c = client(Language::En, None);
    let request = build_request::<Localized>(&c, "https://h/v2/items?v=latest", Some(String::from("ids=all"))).unwrap();
    assert_eq!(request.url, "https://h/v2/items?v=latest&lang=en&ids=all");
    let untouched = build_request::<Open>(&c, "https://h/v2/build?v=latest", None).unwrap();
    assert_eq!(untouched.url, "https://h/v2/build?v=latest");
}

#[test]
fn request_needs_a_key_for_authenticated_endpoints() {
    let without = build_request::<Private>(&client(Language::En, None), "https://h/v2/characters", None);
    assert_eq!(without, Err(EndpointError::NotAuthenticated));
    let with = build_request::<Private>(&client(Language::En, Some("ABCD-1234")), "https://h/v2/characters", None).unwrap();
    assert_eq!(with.url, "https://h/v2/characters?lang=en");
    assert_eq!(
        with.headers,
        vec![
            header("X-Schema-Version", "2022-07-22T00:00:00.000Z"),
            header("Authorization", "Bearer ABCD-1234"),
        ]
    );
    let unused = build_request::<Open>(&client(Language::En, Some("ABCD-1234")), "u", None).unwrap();
    assert_eq!(unused.headers.len(), 1);
}

#[test]
fn endpoint_url_joins_with_a_slash() {
    assert_eq!(format_endpoint_url("https://api.guildwars2.com", "v2/items"), "https://api.guildwars2.com/v2/items");
}

#[test]
fn header_lookup_takes_the_first_match() {
    let response = Response {
        status: 200,
        headers: vec![
            header("content-type", "application/json"),
            header("x-result-total", "12"),
            header("x-result-total", "13"),
        ],
    };
    assert_eq!(get_header(&response, "x-result-total"), Some("12"));
    assert_eq!(get_header(&response, "content-type"), Some("application/json"));
    assert_eq!(get_header(&response, "cache-control"), None);
    assert_eq!(get_header(&response, "X-Result-Total"), None);
    assert_eq!(result_total(&response), 12);
}

#[test]
fn result_total_defaults_to_zero() {
    assert_eq!(result_total(&Response { status: 200, headers: Vec::new() }), 0);
    for (value, total) in [("", 0usize), ("abc", 0), ("-1", 0), ("1.5", 0), (" 7", 0), ("7", 7), ("+7", 7), ("007", 7)] {
        let response = Response { status: 200, headers: vec![header("x-result-total", value)] };
        assert_eq!(result_total(&response), total);
    }
}

#[test]
fn error_messages() {
    let all = [
        EndpointError::NotAuthenticated,
        EndpointError::UnsupportedEndpointQuery,
        EndpointError::Network,
        EndpointError::Decode,
        EndpointError::Receive,
        EndpointError::Api,
    ];
    for (i, a) in all.iter().enumerate() {
        assert!(!a.message().is_empty());
        for b in &all[i + 1..] {
            assert_ne!(a, b);
            assert_ne!(a.message(), b.message());
        }
    }
}

#[test]
fn status_of_success_passes() {
    for status in [200u16, 201, 204, 206, 250, 299] {
        assert_eq!(accept(status), Ok(()));
    }
}

#[test]
fn other_status_is_an_api_error() {
    for status in [0u16, 100, 199, 300, 301, 304, 400, 401, 403, 404, 429, 500, 503, 599, u16::MAX] {
        assert_eq!(accept(status), Err(EndpointError::Api));
    }
}
