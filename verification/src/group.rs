use vstd::prelude::*;
use crate::endpoint::Endpoint;
use crate::plan::{group_routes, GroupDeclV};
use crate::router::{router_custom_fallback, router_routes};
use crate::state::StateHandle;

verus! {

/// One independently authored route group: a named, fixed set of endpoint
/// declarations that can build a sub-router serving exactly those endpoints.
///
/// The composer is verified against this contract alone.  An implementor
/// promises with `build` that the sub-router it hands back serves the
/// declared routes and no others, carries no custom fallback, and that the
/// declaration itself never changes; nothing checks an implementation
/// against that promise.
pub trait RouteGroup<S>: Sized {
    /// What the group declares: its name, whether its handlers need the
    /// shared application state, and its fixed endpoint set.
    spec fn decl(&self) -> GroupDeclV;

    /// The group's name.
    fn name(&self) -> (n: String)
        ensures
            n@ == self.decl().name,
    ;

    /// Whether the group's handlers need the shared application state.
    fn needs_state(&self) -> (b: bool)
        ensures
            b == self.decl().needs_state,
    ;

    /// The group's endpoints, in declaration order.
    fn endpoints(&self) -> (eps: Vec<Endpoint>)
        ensures
            eps@.map_values(|e: Endpoint| e@) == self.decl().endpoints,
    ;

    /// Builds the group's sub-router, around the state handle if the group
    /// asked for one.  A group whose own configuration is invalid may fail
    /// instead; its message is passed on unchanged.
    fn build(&self, state: Option<StateHandle<S>>) -> (r: Result<axum::Router, String>)
        requires
            self.decl().needs_state ==> state is Some,
        ensures
            r matches Ok(router) ==> router_routes(router) == group_routes(self.decl())
                && !router_custom_fallback(router),
    ;
}

/// The declarations of a whole list of groups.
pub open spec fn group_decls<S, G: RouteGroup<S>>(gs: Seq<G>) -> Seq<GroupDeclV> {
    gs.map_values(|g: G| g.decl())
}

} // verus!
