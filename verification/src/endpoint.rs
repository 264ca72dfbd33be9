//! What a resource type tells the client about its endpoint.
use vstd::prelude::*;
use vstd::string::*;
use crate::ids::EndpointId;

verus! {

/// The URL of one resource: host, path and id, joined by slashes.
pub open spec fn item_url(host: Seq<char>, path: Seq<char>, id: Seq<char>) -> Seq<char> {
    host + seq!['/'] + path + seq!['/'] + id
}

/// The URL of an endpoint as a whole: host and path, joined by a slash.
pub open spec fn endpoint_url(host: Seq<char>, path: Seq<char>) -> Seq<char> {
    host + seq!['/'] + path
}

/// Joins host and path into the URL of an endpoint.
pub fn format_endpoint_url(host: &str, path: &str) -> (url: String)
    ensures
        url@ == endpoint_url(host@, path@),
{
    proof {
        reveal_strlit("/");
    }
    let mut url = String::from_str(host);
    url.append("/");
    url.append(path);
    assert("/"@ =~= seq!['/']);
    url
}

/// The constants of an endpoint.
pub trait Endpoint: Sized {
    /// Whether requests must carry the api key.
    const AUTHENTICATED: bool;

    /// Whether the answer depends on the language.
    const LOCALE: bool;

    /// The path of the endpoint below the host.
    const URL: &'static str;

    /// The schema version that requests ask for.
    const VERSION: &'static str;
}

/// An endpoint whose resources are addressed by id.
pub trait EndpointWithId: Endpoint {
    type IdType: EndpointId;

    /// The URL of the resource with the given id.
    fn format_url(host: &str, id: &Self::IdType) -> (url: String)
        ensures
            url@ == item_url(host@, Self::URL@, id.text()),
    {
        proof {
            reveal_strlit("/");
        }
        let mut url = format_endpoint_url(host, Self::URL);
        url.append("/");
        let text = id.render();
        url.append(text.as_str());
        assert("/"@ =~= seq!['/']);
        url
    }
}

/// An endpoint that holds one document and takes no id.
pub trait FixedEndpoint: Endpoint {
}

/// An endpoint that answers for several ids at once. A verified
/// implementation says what `spec_id` is and proves `id` against it.
pub trait BulkEndpoint: EndpointWithId {
    /// Whether the endpoint takes `ids=all`.
    const ALL: bool;

    /// Whether the endpoint takes `page` and `page_size`.
    const PAGING: bool = true;

    /// The id of this resource, as contracts speak of it.
    open spec fn spec_id(&self) -> Self::IdType {
        arbitrary()
    }

    /// The id of this resource.
    fn id(&self) -> (id: &Self::IdType)
        ensures
            *id == self.spec_id(),
    ;
}

} // verus!
