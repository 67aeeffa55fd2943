use vstd::prelude::*;
use crate::endpoint::{check_plain_path, plain_path, Endpoint, Method};
use crate::error::ComposeError;

verus! {

broadcast use vstd::seq::group_seq_axioms;

/// The declaration of one route group, as plain data: its name, whether its
/// handlers need the shared application state, and its fixed set of
/// endpoints.
pub struct GroupDecl {
    pub name: String,
    pub needs_state: bool,
    pub endpoints: Vec<Endpoint>,
}

/// The mathematical content of a group declaration.
#[verifier::ext_equal]
pub struct GroupDeclV {
    pub name: Seq<char>,
    pub needs_state: bool,
    pub endpoints: Seq<(Method, Seq<char>)>,
}

impl View for GroupDecl {
    type V = GroupDeclV;

    open spec fn view(&self) -> GroupDeclV {
        GroupDeclV {
            name: self.name@,
            needs_state: self.needs_state,
            endpoints: self.endpoints@.map_values(|e: Endpoint| e@),
        }
    }
}

/// The declarations of a whole list of groups.
pub open spec fn decl_views(decls: Seq<GroupDecl>) -> Seq<GroupDeclV> {
    decls.map_values(|d: GroupDecl| d@)
}

/// One row of a composed routing table: a route together with the index of
/// the group it originates from.
pub struct RouteEntry {
    pub method: Method,
    pub path: String,
    pub group: usize,
}

#[verifier::ext_equal]
pub struct RouteEntryV {
    pub method: Method,
    pub path: Seq<char>,
    pub group: int,
}

impl View for RouteEntry {
    type V = RouteEntryV;

    open spec fn view(&self) -> RouteEntryV {
        RouteEntryV { method: self.method, path: self.path@, group: self.group as int }
    }
}

pub open spec fn table_view(t: Seq<RouteEntry>) -> Seq<RouteEntryV> {
    t.map_values(|e: RouteEntry| e@)
}

/// The route a table row claims.
pub open spec fn entry_route(e: RouteEntryV) -> (Method, Seq<char>) {
    (e.method, e.path)
}

/// The row that endpoint `e` of group `g` contributes.
pub open spec fn row_of(ds: Seq<GroupDeclV>, g: int, e: int) -> RouteEntryV {
    RouteEntryV { method: ds[g].endpoints[e].0, path: ds[g].endpoints[e].1, group: g }
}

/// The rows group `gi` contributes, in declaration order.
pub open spec fn group_rows(d: GroupDeclV, gi: int) -> Seq<RouteEntryV> {
    d.endpoints.map_values(
        |p: (Method, Seq<char>)| RouteEntryV { method: p.0, path: p.1, group: gi },
    )
}

/// The routing table of the first `n` groups, in declaration order.
pub open spec fn plan_prefix(ds: Seq<GroupDeclV>, n: int) -> Seq<RouteEntryV>
    decreases n,
{
    if n <= 0 {
        Seq::empty()
    } else {
        plan_prefix(ds, n - 1) + group_rows(ds[n - 1], n - 1)
    }
}

/// The routing table composition is to produce: every declared endpoint,
/// tagged with its originating group, in declaration order.
pub open spec fn spec_plan(ds: Seq<GroupDeclV>) -> Seq<RouteEntryV> {
    plan_prefix(ds, ds.len() as int)
}

/// No two distinct declared endpoints — within one group or across two —
/// claim the same method and path.
pub open spec fn conflict_free(ds: Seq<GroupDeclV>) -> bool {
    forall|g1: int, e1: int, g2: int, e2: int|
        0 <= g1 < ds.len() && 0 <= e1 < ds[g1].endpoints.len() && 0 <= g2 < ds.len() && 0 <= e2
            < ds[g2].endpoints.len() && (g1 != g2 || e1 != e2) ==> (#[trigger] ds[g1].endpoints[e1])
            != (#[trigger] ds[g2].endpoints[e2])
}

/// Every declared path is one the composer accepts.
pub open spec fn paths_plain(ds: Seq<GroupDeclV>) -> bool {
    forall|g: int, e: int|
        0 <= g < ds.len() && 0 <= e < ds[g].endpoints.len() ==> plain_path(
            (#[trigger] ds[g].endpoints[e]).1,
        )
}

/// No two rows of a table claim the same route.
pub open spec fn rows_distinct(t: Seq<RouteEntryV>) -> bool {
    forall|i: int, j: int|
        0 <= i < j < t.len() ==> entry_route(#[trigger] t[i]) != entry_route(#[trigger] t[j])
}

/// The routes the first `n` groups declare.
pub open spec fn declared_routes_prefix(ds: Seq<GroupDeclV>, n: int) -> Set<(Method, Seq<char>)> {
    Set::new(
        |k: (Method, Seq<char>)|
            exists|g: int, e: int|
                0 <= g < n && g < ds.len() && 0 <= e < ds[g].endpoints.len() && (
                #[trigger] ds[g].endpoints[e]) == k,
    )
}

/// The routes all groups together declare.
pub open spec fn declared_routes(ds: Seq<GroupDeclV>) -> Set<(Method, Seq<char>)> {
    declared_routes_prefix(ds, ds.len() as int)
}

/// The routes one group declares.
pub open spec fn group_routes(d: GroupDeclV) -> Set<(Method, Seq<char>)> {
    Set::new(
        |k: (Method, Seq<char>)|
            exists|e: int| 0 <= e < d.endpoints.len() && (#[trigger] d.endpoints[e]) == k,
    )
}

/// When an `InvalidPath` error reporting `group` and `path` is right: some
/// declared endpoint of that group has that path, and it is not plain.
pub open spec fn invalid_path_reported(ds: Seq<GroupDeclV>, group: Seq<char>, path: Seq<char>) -> bool {
    !paths_plain(ds) && exists|g: int, e: int|
        0 <= g < ds.len() && 0 <= e < ds[g].endpoints.len() && !plain_path(
            (#[trigger] ds[g].endpoints[e]).1,
        ) && ds[g].name == group && ds[g].endpoints[e].1 == path
}

/// When a `Conflict` error is right: two distinct declared endpoints — of
/// the two named groups — both claim the reported method and path.
pub open spec fn conflict_reported(
    ds: Seq<GroupDeclV>,
    first_group: Seq<char>,
    second_group: Seq<char>,
    method: Method,
    path: Seq<char>,
) -> bool {
    paths_plain(ds) && !conflict_free(ds) && exists|g1: int, e1: int, g2: int, e2: int|
        0 <= g1 < ds.len() && 0 <= e1 < ds[g1].endpoints.len() && 0 <= g2 < ds.len() && 0 <= e2
            < ds[g2].endpoints.len() && (g1 != g2 || e1 != e2) && (#[trigger] ds[g1].endpoints[e1])
            == (method, path) && (#[trigger] ds[g2].endpoints[e2]) == (method, path)
            && ds[g1].name == first_group && ds[g2].name == second_group
}

/// When a configuration error is rightly reported of the declarations `ds`.
/// A `GroupFailed` error can only name a group that is there, and is only
/// reached once the declarations themselves were found sound.
pub open spec fn error_reported(ds: Seq<GroupDeclV>, err: ComposeError) -> bool {
    match err {
        ComposeError::InvalidPath { group, path } => invalid_path_reported(ds, group@, path@),
        ComposeError::Conflict { first_group, second_group, method, path } => conflict_reported(
            ds,
            first_group@,
            second_group@,
            method,
            path@,
        ),
        ComposeError::GroupFailed { group, message } => paths_plain(ds) && conflict_free(ds)
            && exists|g: int| 0 <= g < ds.len() && (#[trigger] ds[g]).name == group@,
    }
}

/// A table with pairwise distinct routes maps each route to at most one
/// row: two rows that claim the same method and path are one row.
pub proof fn lemma_route_unique(t: Seq<RouteEntryV>, i: int, j: int)
    requires
        rows_distinct(t),
        0 <= i < t.len(),
        0 <= j < t.len(),
        entry_route(t[i]) == entry_route(t[j]),
    ensures
        i == j,
{
}

/// Where in the planned table the row of endpoint `e` of group `g` stands.
pub open spec fn plan_pos(ds: Seq<GroupDeclV>, g: int, e: int) -> int {
    plan_prefix(ds, g).len() + e
}

/// The planned table grows with the number of groups.
pub proof fn lemma_plan_prefix_len_mono(ds: Seq<GroupDeclV>, a: int, b: int)
    requires
        0 <= a <= b,
    ensures
        plan_prefix(ds, a).len() <= plan_prefix(ds, b).len(),
    decreases b,
{
    if a < b {
        lemma_plan_prefix_len_mono(ds, a, b - 1);
    }
}

/// Completeness: every declared endpoint stands in the planned table, at its
/// position, tagged with its originating group.
pub proof fn lemma_plan_covers(ds: Seq<GroupDeclV>, n: int, g: int, e: int)
    requires
        0 <= g < n <= ds.len(),
        0 <= e < ds[g].endpoints.len(),
    ensures
        0 <= plan_pos(ds, g, e) < plan_prefix(ds, n).len(),
        plan_prefix(ds, n)[plan_pos(ds, g, e)] == row_of(ds, g, e),
    decreases n,
{
    if g == n - 1 {
        assert(group_rows(ds[g], g)[e] == row_of(ds, g, e));
    } else {
        lemma_plan_covers(ds, n - 1, g, e);
    }
}

/// Soundness: every row of the planned table is the row of the one declared
/// endpoint whose position it occupies.
pub proof fn lemma_plan_sound(ds: Seq<GroupDeclV>, n: int, i: int)
    requires
        0 <= n <= ds.len(),
        0 <= i < plan_prefix(ds, n).len(),
    ensures
        exists|g: int, e: int|
            0 <= g < n && 0 <= e < ds[g].endpoints.len() && plan_pos(ds, g, e) == i && plan_prefix(
                ds,
                n,
            )[i] == #[trigger] row_of(ds, g, e),
    decreases n,
{
    let left = plan_prefix(ds, n - 1);
    if i < left.len() {
        lemma_plan_sound(ds, n - 1, i);
        let (g, e): (int, int) = choose|g: int, e: int|
            0 <= g < n - 1 && 0 <= e < ds[g].endpoints.len() && plan_pos(ds, g, e) == i && left[i]
                == #[trigger] row_of(ds, g, e);
        assert(plan_prefix(ds, n)[i] == row_of(ds, g, e));
    } else {
        let e = i - left.len();
        assert(plan_prefix(ds, n)[i] == group_rows(ds[n - 1], n - 1)[e]);
        assert(plan_prefix(ds, n)[i] == row_of(ds, n - 1, e));
        assert(plan_pos(ds, n - 1, e) == i);
    }
}

/// The planned table has pairwise distinct routes exactly when the
/// declarations are conflict-free.
pub proof fn lemma_conflict_free_iff_distinct(ds: Seq<GroupDeclV>)
    ensures
        conflict_free(ds) <==> rows_distinct(spec_plan(ds)),
{
    let n = ds.len() as int;
    let t = spec_plan(ds);
    if conflict_free(ds) {
        assert forall|i: int, j: int| 0 <= i < j < t.len() implies entry_route(#[trigger] t[i])
            != entry_route(#[trigger] t[j]) by {
            lemma_plan_sound(ds, n, i);
            lemma_plan_sound(ds, n, j);
            let (g1, e1): (int, int) = choose|g1: int, e1: int|
                0 <= g1 < n && 0 <= e1 < ds[g1].endpoints.len() && plan_pos(ds, g1, e1) == i && t[i]
                    == #[trigger] row_of(ds, g1, e1);
            let (g2, e2): (int, int) = choose|g2: int, e2: int|
                0 <= g2 < n && 0 <= e2 < ds[g2].endpoints.len() && plan_pos(ds, g2, e2) == j && t[j]
                    == #[trigger] row_of(ds, g2, e2);
            assert(g1 != g2 || e1 != e2);
            assert(ds[g1].endpoints[e1] != ds[g2].endpoints[e2]);
        }
    }
    if rows_distinct(t) {
        assert forall|g1: int, e1: int, g2: int, e2: int|
            0 <= g1 < ds.len() && 0 <= e1 < ds[g1].endpoints.len() && 0 <= g2 < ds.len() && 0 <= e2
                < ds[g2].endpoints.len() && (g1 != g2 || e1 != e2) implies (
        #[trigger] ds[g1].endpoints[e1]) != (#[trigger] ds[g2].endpoints[e2]) by {
            lemma_plan_covers(ds, n, g1, e1);
            lemma_plan_covers(ds, n, g2, e2);
            let i = plan_pos(ds, g1, e1);
            let j = plan_pos(ds, g2, e2);
            if g1 < g2 {
                lemma_plan_prefix_len_mono(ds, g1 + 1, g2);
                assert(i < j);
            } else if g2 < g1 {
                lemma_plan_prefix_len_mono(ds, g2 + 1, g1);
                assert(j < i);
            }
            assert(i != j);
            assert(entry_route(t[i]) != entry_route(t[j]));
        }
    }
}

/// With conflict-free declarations, a group's routes are disjoint from all
/// routes declared before it.
pub proof fn lemma_group_disjoint_from_prefix(ds: Seq<GroupDeclV>, g: int)
    requires
        conflict_free(ds),
        0 <= g < ds.len(),
    ensures
        declared_routes_prefix(ds, g).disjoint(group_routes(ds[g])),
{
    assert forall|k: (Method, Seq<char>)| declared_routes_prefix(ds, g).contains(k) implies !(
    group_routes(ds[g]).contains(k)) by {
        let (g1, e1): (int, int) = choose|g1: int, e1: int|
            0 <= g1 < g && g1 < ds.len() && 0 <= e1 < ds[g1].endpoints.len() && (
            #[trigger] ds[g1].endpoints[e1]) == k;
        if group_routes(ds[g]).contains(k) {
            let e2 = choose|e2: int|
                0 <= e2 < ds[g].endpoints.len() && (#[trigger] ds[g].endpoints[e2]) == k;
            assert(ds[g1].endpoints[e1] == ds[g].endpoints[e2]);
            assert(false);
        }
    }
}

/// Adding a group's routes to those declared before it gives the routes
/// declared up to and including it.
pub proof fn lemma_declared_prefix_step(ds: Seq<GroupDeclV>, g: int)
    requires
        0 <= g < ds.len(),
    ensures
        declared_routes_prefix(ds, g).union(group_routes(ds[g])) == declared_routes_prefix(
            ds,
            g + 1,
        ),
{
    let lhs = declared_routes_prefix(ds, g).union(group_routes(ds[g]));
    let rhs = declared_routes_prefix(ds, g + 1);
    assert forall|k: (Method, Seq<char>)| lhs.contains(k) implies rhs.contains(k) by {
        if declared_routes_prefix(ds, g).contains(k) {
            let (g1, e1): (int, int) = choose|g1: int, e1: int|
                0 <= g1 < g && g1 < ds.len() && 0 <= e1 < ds[g1].endpoints.len() && (
                #[trigger] ds[g1].endpoints[e1]) == k;
            assert(ds[g1].endpoints[e1] == k);
        } else {
            let e = choose|e: int|
                0 <= e < ds[g].endpoints.len() && (#[trigger] ds[g].endpoints[e]) == k;
            assert(ds[g].endpoints[e] == k);
        }
    }
    assert forall|k: (Method, Seq<char>)| rhs.contains(k) implies lhs.contains(k) by {
        let (g1, e1): (int, int) = choose|g1: int, e1: int|
            0 <= g1 < g + 1 && g1 < ds.len() && 0 <= e1 < ds[g1].endpoints.len() && (
            #[trigger] ds[g1].endpoints[e1]) == k;
        if g1 < g {
            assert(declared_routes_prefix(ds, g).contains(k));
        } else {
            assert(group_routes(ds[g]).contains(k));
        }
    }
    assert(lhs =~= rhs);
}

/// Every route a prefix of the declarations declares has a plain path, as
/// soon as all declared paths are plain.
pub proof fn lemma_declared_paths_plain(ds: Seq<GroupDeclV>, n: int)
    requires
        paths_plain(ds),
    ensures
        forall|k: (Method, Seq<char>)|
            #[trigger] declared_routes_prefix(ds, n).contains(k) ==> plain_path(k.1),
{
    assert forall|k: (Method, Seq<char>)| #[trigger] declared_routes_prefix(ds, n).contains(
        k,
    ) implies plain_path(k.1) by {
        let (g1, e1): (int, int) = choose|g1: int, e1: int|
            0 <= g1 < n && g1 < ds.len() && 0 <= e1 < ds[g1].endpoints.len() && (
            #[trigger] ds[g1].endpoints[e1]) == k;
        assert(plain_path(ds[g1].endpoints[e1].1));
    }
}

/// As `lemma_declared_paths_plain`, for the routes of one group.
pub proof fn lemma_group_paths_plain(ds: Seq<GroupDeclV>, g: int)
    requires
        paths_plain(ds),
        0 <= g < ds.len(),
    ensures
        forall|k: (Method, Seq<char>)| #[trigger] group_routes(ds[g]).contains(k) ==> plain_path(
            k.1,
        ),
{
    assert forall|k: (Method, Seq<char>)| #[trigger] group_routes(ds[g]).contains(k) implies
        plain_path(k.1) by {
        let e = choose|e: int|
            0 <= e < ds[g].endpoints.len() && (#[trigger] ds[g].endpoints[e]) == k;
        assert(plain_path(ds[g].endpoints[e].1));
    }
}

/// Checks every declared path; reports a group and path the composer does
/// not accept, if there is one.
pub fn check_paths(decls: &Vec<GroupDecl>) -> (r: Result<(), ComposeError>)
    ensures
        ({
            let ds = decl_views(decls@);
            match r {
                Ok(_) => paths_plain(ds),
                Err(err) => match err {
                    ComposeError::InvalidPath { group, path } => invalid_path_reported(
                        ds,
                        group@,
                        path@,
                    ),
                    _ => false,
                },
            }
        }),
{
    let ghost ds = decl_views(decls@);
    let mut g: usize = 0;
    while g < decls.len()
        invariant
            ds == decl_views(decls@),
            g <= decls.len(),
            forall|g1: int, e1: int|
                0 <= g1 < g && 0 <= e1 < ds[g1].endpoints.len() ==> plain_path(
                    (#[trigger] ds[g1].endpoints[e1]).1,
                ),
        decreases decls.len() - g,
    {
        let d = &decls[g];
        let mut e: usize = 0;
        while e < d.endpoints.len()
            invariant
                ds == decl_views(decls@),
                g < decls.len(),
                d == decls[g as int],
                e <= d.endpoints.len(),
                forall|g1: int, e1: int|
                    0 <= g1 < g && 0 <= e1 < ds[g1].endpoints.len() ==> plain_path(
                        (#[trigger] ds[g1].endpoints[e1]).1,
                    ),
                forall|e1: int|
                    0 <= e1 < e ==> plain_path((#[trigger] ds[g as int].endpoints[e1]).1),
        decreases d.endpoints.len() - e,
        {
            let ep = &d.endpoints[e];
            if !check_plain_path(ep.path.as_str()) {
                assert(ds[g as int].endpoints[e as int] == ep@);
                return Err(
                    ComposeError::InvalidPath { group: d.name.clone(), path: ep.path.clone() },
                );
            }
            e = e + 1;
        }
        g = g + 1;
    }
    Ok(())
}

/// Plans the composed routing table: every declared endpoint, tagged with
/// its originating group, in declaration order — or the configuration error
/// that forbids composition.  Conflicts are found before any dispatcher
/// machinery is touched.
pub fn plan_routes(decls: &Vec<GroupDecl>) -> (r: Result<Vec<RouteEntry>, ComposeError>)
    ensures
        ({
            let ds = decl_views(decls@);
            match r {
                Ok(table) => paths_plain(ds) && conflict_free(ds) && table_view(table@)
                    == spec_plan(ds) && rows_distinct(spec_plan(ds)),
                Err(err) => error_reported(ds, err) && !(err matches ComposeError::GroupFailed {
                    ..
                }),
            }
        }),
{
    let ghost ds = decl_views(decls@);
    match check_paths(decls) {
        Err(err) => {
            return Err(err);
        },
        Ok(_) => {},
    }
    let mut table: Vec<RouteEntry> = Vec::new();
    let mut g: usize = 0;
    while g < decls.len()
        invariant
            ds == decl_views(decls@),
            paths_plain(ds),
            g <= decls.len(),
            table_view(table@) == plan_prefix(ds, g as int),
            rows_distinct(table_view(table@)),
        decreases decls.len() - g,
    {
        let d = &decls[g];
        let mut e: usize = 0;
        while e < d.endpoints.len()
            invariant
                ds == decl_views(decls@),
                paths_plain(ds),
                g < decls.len(),
                d == decls[g as int],
                e <= d.endpoints.len(),
                table_view(table@) == plan_prefix(ds, g as int) + group_rows(
                    ds[g as int],
                    g as int,
                ).take(e as int),
                rows_distinct(table_view(table@)),
            decreases d.endpoints.len() - e,
        {
            let ep = &d.endpoints[e];
            assert(ds[g as int].endpoints[e as int] == ep@);
            let mut k: usize = 0;
            while k < table.len()
                invariant
                    ds == decl_views(decls@),
                    paths_plain(ds),
                    g < decls.len(),
                    d == decls[g as int],
                    e < d.endpoints.len(),
                    ep == &d.endpoints[e as int],
                    k <= table.len(),
                    table_view(table@) == plan_prefix(ds, g as int) + group_rows(
                        ds[g as int],
                        g as int,
                    ).take(e as int),
                    rows_distinct(table_view(table@)),
                    forall|j: int|
                        0 <= j < k ==> entry_route(#[trigger] table_view(table@)[j]) != (
                        ep.method,
                        ep.path@,
                        ),
                decreases table.len() - k,
            {
                let row = &table[k];
                if row.method == ep.method && row.path.eq(&ep.path) {
                    // The route is already claimed: name both claimants.
                    proof {
                        let t = table_view(table@);
                        let i = k as int;
                        let left = plan_prefix(ds, g as int);
                        assert(t == left + group_rows(ds[g as int], g as int).take(e as int));
                        assert(t.len() == left.len() + e);
                        assert(0 <= i < t.len());
                        if i < left.len() {
                            lemma_plan_sound(ds, g as int, i);
                            let (g1, e1): (int, int) = choose|g1: int, e1: int|
                                0 <= g1 < g && 0 <= e1 < ds[g1].endpoints.len() && plan_pos(
                                    ds,
                                    g1,
                                    e1,
                                ) == i && left[i] == #[trigger] row_of(ds, g1, e1);
                            assert(t[i] == row_of(ds, g1, e1));
                            assert(ds[g1].endpoints[e1] == (ep.method, ep.path@));
                            assert(ds[g1].endpoints[e1] == ds[g as int].endpoints[e as int]);
                            assert(t[i].group == g1);
                        } else {
                            let rows = group_rows(ds[g as int], g as int);
                            let part = rows.take(e as int);
                            let e1 = i - left.len();
                            assert(rows.len() == ds[g as int].endpoints.len());
                            assert(part.len() == e);
                            assert(t[i] == (left + part)[i]);
                            assert((left + part)[i] == part[e1]);
                            assert(part[e1] == rows[e1]);
                            assert(rows[e1] == row_of(ds, g as int, e1));
                            assert(ds[g as int].endpoints[e1] == (ep.method, ep.path@));
                            assert(e1 < e);
                            assert(t[i].group == g as int);
                        }
                        assert(ds[g as int].endpoints[e as int] == (ep.method, ep.path@));
                        assert(0 <= g < ds.len());
                        assert(0 <= e < ds[g as int].endpoints.len());
                        assert(!conflict_free(ds));
                    }
                    assert(table@[k as int].group < decls.len());
                    let first = &decls[table[k].group];
                    return Err(
                        ComposeError::Conflict {
                            first_group: first.name.clone(),
                            second_group: d.name.clone(),
                            method: ep.method,
                            path: ep.path.clone(),
                        },
                    );
                }
                k = k + 1;
            }
            let new_row = RouteEntry { method: ep.method, path: ep.path.clone(), group: g };
            proof {
        assert(new_row@ == row_of(ds, g as int, e as int));
            }
            let ghost old_t = table_view(table@);
            table.push(new_row);
            proof {
                assert(table_view(table@) =~= old_t.push(row_of(ds, g as int, e as int)));
                assert(group_rows(ds[g as int], g as int).take((e + 1) as int) =~= group_rows(
                    ds[g as int],
                    g as int,
                ).take(e as int).push(row_of(ds, g as int, e as int)));
                assert(table_view(table@) =~= plan_prefix(ds, g as int) + group_rows(
                    ds[g as int],
                    g as int,
                ).take((e + 1) as int));
            }
            e = e + 1;
        }
        proof {
            assert(group_rows(ds[g as int], g as int).take(e as int) =~= group_rows(
                ds[g as int],
                g as int,
            ));
            assert(plan_prefix(ds, (g + 1) as int) == plan_prefix(ds, g as int) + group_rows(
                ds[g as int],
                g as int,
            ));
        }
        g = g + 1;
    }
    proof {
        assert(table_view(table@) == spec_plan(ds));
        lemma_conflict_free_iff_distinct(ds);
    }
    Ok(table)
}

} // verus!
