//! Sans-I/O core of a request-coalescing, caching client for the
//! Guild Wars 2 REST API.
//!
//! The crate decides; its caller performs. Every operation is a step that
//! takes the shared state and the current time and says what has to happen
//! next: hand back a cached value, wait for another caller's result, or send
//! a request. Transport, decoding and waiting stay with the caller.
//!
//! A request for one key starts with a method of [`Requester`], such as
//! `single`. Its [`Step`] is followed until it is `Done` or `Failed`: a
//! producer sends its request and ends with `fulfil` or
//! `requester::abandon`; a joined caller waits and asks again with
//! `requester::resume`. A request for many ids starts with `many`, asks
//! again for ids whose keys were stale with `reask`, takes in each response
//! with `fulfil_chunk` and ends with `bulk::gather`. A walk through all
//! pages asks `next_page` for each request. A response whose status is not
//! one of success ends its request with the error `Api` and leaves the
//! cache as it is. The module `laws` states what holds of all of this.
pub mod bulk;
pub mod cache;
pub mod chunks;
pub mod endpoint;
pub mod error;
pub mod expiry;
pub mod hashing;
pub mod http;
pub mod ids;
pub mod inflight;
pub mod language;
pub mod laws;
pub mod legends;
pub mod numbers;
pub mod paging;
pub mod requester;
mod shared;

pub use bulk::{Batch, Gathered};
pub use cache::{Cache, CacheKey, ValueKind};
pub use endpoint::{BulkEndpoint, Endpoint, EndpointWithId, FixedEndpoint};
pub use error::EndpointError;
pub use http::{Client, Header, Request, Response};
pub use ids::EndpointId;
pub use inflight::{Guard, Inflight, Outcome, Reception, Ticket};
pub use language::Language;
pub use legends::{Legend, LegendId, PetSkill, SkillId};
pub use requester::{AllStep, CachedRequest, Requester, Step, Store};
