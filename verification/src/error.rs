//! The error kinds that a request can end in.
use vstd::prelude::*;

verus! {

/// Why a request did not produce a value.
#[derive(Clone, Copy, Debug, PartialEq, Eq, Structural)]
pub enum EndpointError {
    /// The endpoint needs an api key and the client has none.
    NotAuthenticated,
    /// The endpoint does not offer the kind of query that was asked for.
    UnsupportedEndpointQuery,
    /// The transport failed.
    Network,
    /// The response body did not decode.
    Decode,
    /// The producer this caller waited for went away without a value.
    Receive,
    /// The server answered with an error status.
    Api,
}

impl EndpointError {
    /// What `message` spells out, as a sequence of characters.
    pub open spec fn text(self) -> Seq<char> {
        match self {
            EndpointError::NotAuthenticated => "endpoint requires an api key"@,
            EndpointError::UnsupportedEndpointQuery => "endpoint does not support this query"@,
            EndpointError::Network => "network error"@,
            EndpointError::Decode => "response did not decode"@,
            EndpointError::Receive => "producer dropped without a value"@,
            EndpointError::Api => "api error"@,
        }
    }

    /// A short description for logs and messages.
    pub fn message(&self) -> (s: &'static str)
        ensures
            s@ == self.text(),
    {
        match self {
            EndpointError::NotAuthenticated => "endpoint requires an api key",
            EndpointError::UnsupportedEndpointQuery => "endpoint does not support this query",
            EndpointError::Network => "network error",
            EndpointError::Decode => "response did not decode",
            EndpointError::Receive => "producer dropped without a value",
            EndpointError::Api => "api error",
        }
    }
}

} // verus!
