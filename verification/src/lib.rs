//! A request-admission layer for a web server: per-route rate limiting keyed
//! by a request-derived identity.
//!
//! The crate owns the decision protocol — the registry of priority-ordered
//! limiter rules per route, the rule-by-rule admission evaluation that stops
//! at the first rejection, and the shape of the rejection response — and
//! proves contracts for all of it. The keyed quota algorithm itself is
//! governor's, reached through the narrow trusted interface in [`quota`];
//! the host server's request and response objects never appear here, so the
//! hook that feeds requests in and applies response edits lives outside the
//! verified library.

use vstd::prelude::*;

pub mod limit;
pub mod quota;
pub mod respond;

pub use limit::{Evaluation, RateLimit, RateLimitConfig, RuleEvent};
pub use quota::KeyedLimiter;
pub use respond::{RateLimitResponse, ResponseDirective};

verus! {

/// Marker for the reference key-extraction strategy: the client's network
/// address, as a string, is the identity key. Extraction itself reads the
/// host server's request object, so the extractor implementation lives with
/// the host glue; this type names the strategy so that configurations and
/// tests can refer to it.
pub struct IpKeyFilter;

} // verus!
