use vstd::prelude::*;
use vstd::pervasive::unreached;
use crate::endpoint::{str_eq, Method};
use crate::error::ComposeError;
use crate::group::{group_decls, RouteGroup};
use crate::plan::{
    conflict_free, decl_views, declared_routes, declared_routes_prefix, entry_route,
    error_reported, lemma_declared_paths_plain, lemma_declared_prefix_step,
    lemma_group_disjoint_from_prefix, lemma_group_paths_plain, paths_plain, plan_routes,
    rows_distinct, spec_plan, table_view, GroupDecl, GroupDeclV, RouteEntry, RouteEntryV,
};
use crate::router::{router_custom_fallback, router_merge, router_new, router_routes};
use crate::state::StateHandle;

verus! {

broadcast use vstd::seq::group_seq_axioms;

/// The identity of the state instance behind an optional handle.
pub open spec fn spec_instance<S>(state: Option<&StateHandle<S>>) -> Option<int> {
    match state {
        Option::Some(h) => Option::Some(h.instance()),
        Option::None => Option::None,
    }
}

/// Every group that asks for the application state was handed a handle to
/// the instance `sid` names — the one passed into composition — and no
/// stateless group was handed any.
pub open spec fn granted_ok(
    ds: Seq<GroupDeclV>,
    granted: Seq<Option<int>>,
    sid: Option<int>,
) -> bool {
    granted.len() == ds.len() && forall|j: int|
        0 <= j < ds.len() ==> #[trigger] granted[j] == (if ds[j].needs_state {
            sid
        } else {
            Option::<int>::None
        })
}

/// The composed dispatcher: the merged router, its routing table — one row
/// per declared endpoint, tagged with the originating group — and a record
/// of which state instance each group received.
pub struct Dispatcher {
    router: axum::Router,
    table: Vec<RouteEntry>,
    granted: Ghost<Seq<Option<int>>>,
}

/// What a successful composition of the declarations `ds` with the state
/// instance `sid` guarantees of the dispatcher it produced.
pub open spec fn compose_ok(ds: Seq<GroupDeclV>, d: Dispatcher, sid: Option<int>) -> bool {
    &&& paths_plain(ds)
    &&& conflict_free(ds)
    &&& d.spec_table() == spec_plan(ds)
    &&& rows_distinct(d.spec_table())
    &&& d.spec_routes() == declared_routes(ds)
    &&& granted_ok(ds, d.spec_granted(), sid)
}

impl Dispatcher {
    /// The rows of the routing table.
    pub closed spec fn spec_table(&self) -> Seq<RouteEntryV> {
        table_view(self.table@)
    }

    /// The routes the merged router serves.
    pub closed spec fn spec_routes(&self) -> Set<(Method, Seq<char>)> {
        router_routes(self.router)
    }

    /// Which state instance each group received at composition.
    pub closed spec fn spec_granted(&self) -> Seq<Option<int>> {
        self.granted@
    }

    /// The routing table, one row per declared endpoint.
    pub fn table(&self) -> (t: &Vec<RouteEntry>)
        ensures
            table_view(t@) == self.spec_table(),
    {
        &self.table
    }

    /// Looks a route up in the routing table: the index of the group whose
    /// declared endpoint it is, if any claims it.
    pub fn route_of(&self, method: Method, path: &str) -> (r: Option<usize>)
        ensures
            match r {
                Option::Some(g) => exists|i: int|
                    0 <= i < self.spec_table().len() && entry_route(#[trigger] self.spec_table()[i])
                        == (method, path@) && self.spec_table()[i].group == g,
                Option::None => forall|i: int|
                    0 <= i < self.spec_table().len() ==> entry_route(
                        #[trigger] self.spec_table()[i],
                    ) != (method, path@),
            },
    {
        let mut i: usize = 0;
        while i < self.table.len()
            invariant
                i <= self.table@.len(),
                forall|j: int|
                    0 <= j < i ==> entry_route(#[trigger] table_view(self.table@)[j]) != (
                    method,
                    path@,
                    ),
            decreases self.table@.len() - i,
        {
            let row = &self.table[i];
            if row.method == method && str_eq(row.path.as_str(), path) {
                assert(entry_route(self.spec_table()[i as int]) == (method, path@));
                assert(self.spec_table()[i as int].group == row.group);
                return Some(row.group);
            }
            i = i + 1;
        }
        None
    }

    /// Hands the merged router to the host process, which binds it to a
    /// listener.
    pub fn into_router(self) -> (r: axum::Router)
        ensures
            router_routes(r) == self.spec_routes(),
    {
        self.router
    }
}

/// Composes the groups around an optional state handle.
fn compose_with<S, G: RouteGroup<S>>(groups: &Vec<G>, state: Option<&StateHandle<S>>) -> (r:
    Result<Dispatcher, ComposeError>)
    requires
        forall|i: int|
            0 <= i < groups@.len() && (#[trigger] groups@[i].decl()).needs_state ==> state
                is Some,
    ensures
        ({
            let ds = group_decls(groups@);
            match r {
                Ok(d) => compose_ok(ds, d, spec_instance(state)),
                Err(err) => error_reported(ds, err),
            }
        }),
{
    let ghost gds = group_decls(groups@);
    let mut decls: Vec<GroupDecl> = Vec::new();
    let mut i: usize = 0;
    while i < groups.len()
        invariant
            gds == group_decls(groups@),
            i <= groups@.len(),
            decl_views(decls@) == gds.take(i as int),
        decreases groups@.len() - i,
    {
        let g = &groups[i];
        let d = GroupDecl { name: g.name(), needs_state: g.needs_state(), endpoints: g.endpoints() };
        proof {
            assert(d@ =~= groups@[i as int].decl());
        }
        let ghost old_dv = decl_views(decls@);
        decls.push(d);
        proof {
            assert(decl_views(decls@) =~= old_dv.push(groups@[i as int].decl()));
            assert(decl_views(decls@) =~= gds.take((i + 1) as int));
        }
        i = i + 1;
    }
    proof {
        assert(decl_views(decls@) =~= gds);
    }
    let table = match plan_routes(&decls) {
        Ok(t) => t,
        Err(err) => {
            return Err(err);
        },
    };
    let mut acc = router_new();
    let ghost mut granted: Seq<Option<int>> = Seq::empty();
    let mut i: usize = 0;
    while i < groups.len()
        invariant
            gds == group_decls(groups@),
            paths_plain(gds),
            conflict_free(gds),
            forall|j: int|
                0 <= j < groups@.len() && (#[trigger] groups@[j].decl()).needs_state ==> state
                    is Some,
            i <= groups@.len(),
            router_routes(acc) == declared_routes_prefix(gds, i as int),
            !router_custom_fallback(acc),
            granted.len() == i,
            forall|j: int|
                0 <= j < i ==> #[trigger] granted[j] == (if gds[j].needs_state {
                    spec_instance(state)
                } else {
                    Option::<int>::None
                }),
        decreases groups@.len() - i,
    {
        let g = &groups[i];
        let sub_result = if g.needs_state() {
            match state {
                Some(h) => g.build(Some(h.clone_handle())),
                None => unreached(),
            }
        } else {
            g.build(None)
        };
        let sub = match sub_result {
            Ok(s) => s,
            Err(message) => {
                let gname = g.name();
                proof {
                    assert(gds[i as int].name == gname@);
                }
                return Err(ComposeError::GroupFailed { group: gname, message });
            },
        };
        proof {
            assert(gds[i as int] == groups@[i as int].decl());
            lemma_group_disjoint_from_prefix(gds, i as int);
            lemma_declared_paths_plain(gds, i as int);
            lemma_group_paths_plain(gds, i as int);
        }
        acc = router_merge(acc, sub);
        proof {
            lemma_declared_prefix_step(gds, i as int);
            granted = granted.push(
                if gds[i as int].needs_state {
                    spec_instance(state)
                } else {
                    Option::<int>::None
                },
            );
        }
        i = i + 1;
    }
    proof {
        assert(declared_routes_prefix(gds, groups@.len() as int) == declared_routes(gds));
    }
    Ok(Dispatcher { router: acc, table, granted: Ghost(granted) })
}

/// Builds the process's one dispatcher from the ordered list of route
/// groups and the already initialized application state.  Every group that
/// asks for state receives a handle to the identical instance `state`
/// refers to; composition fails — before any sub-router is merged — on a
/// declared path the composer does not accept, on two endpoints claiming
/// the same method and path, or on a group whose own build fails.
pub fn configure<S, G: RouteGroup<S>>(groups: &Vec<G>, state: &StateHandle<S>) -> (r: Result<
    Dispatcher,
    ComposeError,
>)
    ensures
        ({
            let ds = group_decls(groups@);
            match r {
                Ok(d) => compose_ok(ds, d, Option::Some(state.instance())),
                Err(err) => error_reported(ds, err),
            }
        }),
{
    compose_with(groups, Some(state))
}

/// Composes groups none of which asks for the application state, so no
/// state need exist before the dispatcher is built.
pub fn configure_stateless<S, G: RouteGroup<S>>(groups: &Vec<G>) -> (r: Result<
    Dispatcher,
    ComposeError,
>)
    requires
        forall|i: int| 0 <= i < groups@.len() ==> !(#[trigger] groups@[i].decl()).needs_state,
    ensures
        ({
            let ds = group_decls(groups@);
            match r {
                Ok(d) => compose_ok(ds, d, Option::<int>::None),
                Err(err) => error_reported(ds, err),
            }
        }),
{
    compose_with(groups, None)
}

/// Two groups claiming one route forbid composition: no dispatcher at all
/// satisfies a successful composition's guarantees for conflicted
/// declarations, so composition can only fail on them.
pub proof fn lemma_conflict_forbids_dispatch(
    ds: Seq<GroupDeclV>,
    d: Dispatcher,
    sid: Option<int>,
)
    requires
        !conflict_free(ds),
    ensures
        !compose_ok(ds, d, sid),
{
}

/// Composition is deterministic: composing the same declarations with the
/// same state instance twice yields dispatchers with identical routing
/// tables, identical served routes, and identical state grants.
pub proof fn lemma_compose_deterministic(
    ds: Seq<GroupDeclV>,
    d1: Dispatcher,
    d2: Dispatcher,
    sid: Option<int>,
)
    requires
        compose_ok(ds, d1, sid),
        compose_ok(ds, d2, sid),
    ensures
        d1.spec_table() == d2.spec_table(),
        d1.spec_routes() == d2.spec_routes(),
        d1.spec_granted() == d2.spec_granted(),
{
    assert(d1.spec_granted() =~= d2.spec_granted());
}

} // verus!
