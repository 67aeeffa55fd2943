use vstd::prelude::*;
use crate::endpoint::{plain_path, Method};

verus! {

/// Declares axum's `Router` so that the composer can hold and hand around
/// routers; what a router contains is spoken of only through the names
/// below.
#[verifier::external_type_specification]
#[verifier::external_body]
#[verifier::reject_recursive_types(S)]
pub struct ExRouter<S>(axum::Router<S>);

/// The set of routes a router serves: every method-and-path pair that the
/// router dispatches to one of its handlers.  A route registered through a
/// whole-path service counts once per method it answers.
pub uninterp spec fn router_routes(r: axum::Router) -> Set<(Method, Seq<char>)>;

/// Whether the router carries a custom fallback, at the router level or on
/// any of its per-path method routers.  Merging is only safe when at most
/// one side has one; the composer keeps every sub-router free of them.
pub uninterp spec fn router_custom_fallback(r: axum::Router) -> bool;

/// Relies on axum's `Router::new`: a fresh router serves no routes and has
/// only the default fallback.
#[verifier::external_body]
pub(crate) fn router_new() -> (r: axum::Router)
    ensures
        router_routes(r) == Set::<(Method, Seq<char>)>::empty(),
        !router_custom_fallback(r),
{
    axum::Router::new()
}

/// Relies on axum's `Router::merge`: when the two routers' route sets are
/// disjoint, every path is literal (so that two distinct paths can never
/// overlap as patterns), and neither router has a custom fallback, the merge
/// succeeds and the result serves exactly the union of the two route sets.
#[verifier::external_body]
pub(crate) fn router_merge(a: axum::Router, b: axum::Router) -> (r: axum::Router)
    requires
        router_routes(a).disjoint(router_routes(b)),
        forall|k: (Method, Seq<char>)| #[trigger] router_routes(a).contains(k) ==> plain_path(k.1),
        forall|k: (Method, Seq<char>)| #[trigger] router_routes(b).contains(k) ==> plain_path(k.1),
        !router_custom_fallback(a),
        !router_custom_fallback(b),
    ensures
        router_routes(r) == router_routes(a).union(router_routes(b)),
        !router_custom_fallback(r),
{
    a.merge(b)
}

} // verus!
