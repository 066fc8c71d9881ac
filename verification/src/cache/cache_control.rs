//! The directives of a `Cache-Control` header.

use vstd::prelude::*;

verus! {

/// An HTTP `Cache-Control` directive. Durations are whole seconds.
#[derive(Debug, Clone, Copy, PartialEq, Eq, Structural)]
pub enum CacheDirective {
    /// The response body will not change over time.
    Immutable,
    /// The maximum amount of time a resource is considered fresh.
    MaxAge(u64),
    /// Indicates the client will accept a stale response.
    MaxStale(Option<u64>),
    /// A response that will still be fresh for at least the specified duration.
    MinFresh(u64),
    /// Once a response is stale, a fresh response must be retrieved.
    MustRevalidate,
    /// The response may be cached, but must always be revalidated before being used.
    NoCache,
    /// The response may not be cached.
    NoStore,
    /// An intermediate cache or proxy cannot edit the response body,
    /// Content-Encoding, Content-Range, or Content-Type.
    NoTransform,
    /// Do not use the network for a response.
    OnlyIfCached,
    /// The response may be stored only by a browser's cache, even if the
    /// response is normally non-cacheable
    Private,
    /// Like must-revalidate, but only for shared caches (e.g., proxies).
    ProxyRevalidate,
    /// The response may be stored by any cache, even if the response is normally
    /// non-cacheable.
    Public,
    /// Overrides max-age or the Expires header, but only for shared caches.
    SMaxAge(u64),
    /// The client will accept a stale response if retrieving a fresh one fails.
    StaleIfError(u64),
    /// Indicates the client will accept a stale response, while asynchronously
    /// checking in the background for a fresh one.
    StaleWhileRevalidate(u64),
}

/// The directives that may stand in a request.
pub open spec fn is_request_directive(d: CacheDirective) -> bool {
    match d {
        CacheDirective::MaxAge(_) | CacheDirective::MaxStale(_) | CacheDirective::MinFresh(_)
        | CacheDirective::NoCache | CacheDirective::NoStore | CacheDirective::NoTransform
        | CacheDirective::OnlyIfCached => true,
        _ => false,
    }
}

/// The directives that may stand in a response.
pub open spec fn is_response_directive(d: CacheDirective) -> bool {
    match d {
        CacheDirective::MustRevalidate | CacheDirective::NoCache | CacheDirective::NoStore
        | CacheDirective::NoTransform | CacheDirective::Public | CacheDirective::Private
        | CacheDirective::ProxyRevalidate | CacheDirective::MaxAge(_) | CacheDirective::SMaxAge(_)
        | CacheDirective::StaleIfError(_) | CacheDirective::StaleWhileRevalidate(_) => true,
        _ => false,
    }
}

/// Law: the directives of requests are those RFC 7234 section 5.2.1 lists
/// (`max-age`, `max-stale`, `min-fresh`, `no-cache`, `no-store`,
/// `no-transform`, `only-if-cached`); those of responses are those of section
/// 5.2.2 (`must-revalidate`, `no-cache`, `no-store`, `no-transform`,
/// `public`, `private`, `proxy-revalidate`, `max-age`, `s-maxage`) and the
/// `stale-if-error` and `stale-while-revalidate` extensions of RFC 5861.
pub proof fn law_cache_directive_kinds(d: CacheDirective)
    ensures
        is_request_directive(d) <==> (d is MaxAge || d is MaxStale || d is MinFresh || d is NoCache
            || d is NoStore || d is NoTransform || d is OnlyIfCached),
        is_response_directive(d) <==> (d is MustRevalidate || d is NoCache || d is NoStore
            || d is NoTransform || d is Public || d is Private || d is ProxyRevalidate
            || d is MaxAge || d is SMaxAge || d is StaleIfError || d is StaleWhileRevalidate),
{
}

impl CacheDirective {
    /// Check whether this directive is valid in an HTTP request.
    pub fn is_req(&self) -> (r: bool)
        ensures
            r == is_request_directive(*self),
    {
        match self {
            CacheDirective::MaxAge(_) | CacheDirective::MaxStale(_) | CacheDirective::MinFresh(_)
            | CacheDirective::NoCache | CacheDirective::NoStore | CacheDirective::NoTransform
            | CacheDirective::OnlyIfCached => true,
            _ => false,
        }
    }

    /// Check whether this directive is valid in an HTTP response.
    pub fn is_res(&self) -> (r: bool)
        ensures
            r == is_response_directive(*self),
    {
        match self {
            CacheDirective::MustRevalidate | CacheDirective::NoCache | CacheDirective::NoStore
            | CacheDirective::NoTransform | CacheDirective::Public | CacheDirective::Private
            | CacheDirective::ProxyRevalidate | CacheDirective::MaxAge(_)
            | CacheDirective::SMaxAge(_) | CacheDirective::StaleIfError(_)
            | CacheDirective::StaleWhileRevalidate(_) => true,
            _ => false,
        }
    }
}

} // verus!
