use goose_routes::compose::{configure, configure_stateless, Dispatcher};
use goose_routes::endpoint::{Endpoint, Method};
use goose_routes::error::ComposeError;
use goose_routes::group::RouteGroup;
use goose_routes::plan::GroupDeclV;
use goose_routes::state::StateHandle;
use std::cell::RefCell;
use std::rc::Rc;

struct TestGroup<S> {
    name: &'static str,
    needs_state: bool,
    routes: Vec<(Method, &'static str)>,
    fail_with: Option<&'static str>,
    received: Rc<RefCell<Option<StateHandle<S>>>>,
}

impl<S> TestGroup<S> {
    fn new(name: &'static str, needs_state: bool, routes: Vec<(Method, &'static str)>) -> Self {
        TestGroup {
            name,
            needs_state,
            routes,
            fail_with: None,
            received: Rc::new(RefCell::new(None)),
        }
    }
}

fn method_router(m: Method) -> axum::routing::MethodRouter {
    match m {
        Method::Get => axum::routing::get(|| async { "ok" }),
        Method::Head => axum::routing::head(|| async { "ok" }),
        Method::Post => axum::routing::post(|| async { "ok" }),
        Method::Put => axum::routing::put(|| async { "ok" }),
        Method::Delete => axum::routing::delete(|| async { "ok" }),
        Method::Options => axum::routing::options(|| async { "ok" }),
        Method::Patch => axum::routing::patch(|| async { "ok" }),
        Method::Trace => axum::routing::trace(|| async { "ok" }),
        Method::Connect => panic!("connect routes are not used in these tests"),
    }
}

impl<S> RouteGroup<S> for TestGroup<S> {
    fn decl(&self) -> GroupDeclV {
        unreachable!()
    }

    fn name(&self) -> String {
        self.name.to_owned()
    }

    fn needs_state(&self) -> bool {
        self.needs_state
    }

    fn endpoints(&self) -> Vec<Endpoint> {
        self.routes.iter().map(|(m, p)| Endpoint::new(*m, p)).collect()
    }

    fn build(&self, state: Option<StateHandle<S>>) -> Result<axum::Router, String> {
        if let Some(msg) = self.fail_with {
            return Err(msg.to_owned());
        }
        *self.received.borrow_mut() = state;
        let mut r = axum::Router::new();
        for (m, p) in &self.routes {
            r = r.route(p, method_router(*m));
        }
        Ok(r)
    }
}

fn seven_plus_health() -> Vec<TestGroup<RefCell<u32>>> {
    vec![
        TestGroup::new("health", false, vec![(Method::Get, "/status")]),
        TestGroup::new("reply", true, vec![(Method::Post, "/reply")]),
        TestGroup::new("agent", true, vec![
            (Method::Get, "/agent/versions"),
            (Method::Post, "/agent"),
        ]),
        TestGroup::new("extension", true, vec![(Method::Post, "/extension/add")]),
        TestGroup::new("configs", true, vec![
            (Method::Get, "/configs/get"),
            (Method::Post, "/configs/store"),
        ]),
        TestGroup::new("config_management", true, vec![(Method::Post, "/config/upsert")]),
        TestGroup::new("gooseling", true, vec![(Method::Post, "/gooseling/create")]),
        TestGroup::new("session", true, vec![
            (Method::Get, "/sessions"),
            (Method::Delete, "/sessions/purge"),
        ]),
    ]
}

fn table_rows(d: &Dispatcher) -> Vec<(Method, String, usize)> {
    d.table().iter().map(|r| (r.method, r.path.clone(), r.group)).collect()
}

#[test]
fn composes_all_declared_routes_and_no_others() {
    let groups = seven_plus_health();
    let state = StateHandle::new(RefCell::new(0u32));
    let d = configure(&groups, &state).unwrap_or_else(|_| panic!("composition failed"));
    let rows = table_rows(&d);
    assert_eq!(rows.len(), 11);
    // every declared endpoint is routed to its originating group
    assert_eq!(rows[0], (Method::Get, "/status".to_owned(), 0));
    assert_eq!(rows[1], (Method::Post, "/reply".to_owned(), 1));
    assert_eq!(rows[2], (Method::Get, "/agent/versions".to_owned(), 2));
    assert_eq!(rows[3], (Method::Post, "/agent".to_owned(), 2));
    assert_eq!(rows[10], (Method::Delete, "/sessions/purge".to_owned(), 7));
    // and nothing else is
    assert_eq!(d.route_of(Method::Get, "/status"), Some(0));
    assert_eq!(d.route_of(Method::Post, "/gooseling/create"), Some(6));
    assert_eq!(d.route_of(Method::Get, "/nowhere"), None);
    assert_eq!(d.route_of(Method::Post, "/status"), None);
}

#[test]
fn composing_twice_yields_identical_tables() {
    let groups = seven_plus_health();
    let state = StateHandle::new(RefCell::new(0u32));
    let d1 = configure(&groups, &state).unwrap_or_else(|_| panic!("composition failed"));
    let d2 = configure(&groups, &state).unwrap_or_else(|_| panic!("composition failed"));
    assert_eq!(table_rows(&d1), table_rows(&d2));
}

#[test]
fn duplicate_route_across_groups_is_fatal() {
    let groups: Vec<TestGroup<RefCell<u32>>> = vec![
        TestGroup::new("alpha", false, vec![(Method::Get, "/dup"), (Method::Get, "/only")]),
        TestGroup::new("beta", false, vec![(Method::Post, "/dup")]),
        TestGroup::new("gamma", false, vec![(Method::Get, "/dup")]),
    ];
    let state = StateHandle::new(RefCell::new(0u32));
    match configure(&groups, &state) {
        Err(ComposeError::Conflict { first_group, second_group, method, path }) => {
            assert_eq!(first_group, "alpha");
            assert_eq!(second_group, "gamma");
            assert_eq!(method, Method::Get);
            assert_eq!(path, "/dup");
        },
        _ => panic!("expected a conflict"),
    }
}

#[test]
fn duplicate_route_within_one_group_is_fatal() {
    let groups: Vec<TestGroup<RefCell<u32>>> = vec![TestGroup::new("alpha", false, vec![
        (Method::Get, "/dup"),
        (Method::Get, "/dup"),
    ])];
    let state = StateHandle::new(RefCell::new(0u32));
    match configure(&groups, &state) {
        Err(ComposeError::Conflict { first_group, second_group, .. }) => {
            assert_eq!(first_group, "alpha");
            assert_eq!(second_group, "alpha");
        },
        _ => panic!("expected a conflict"),
    }
}

#[test]
fn same_path_under_two_methods_is_no_conflict() {
    let groups: Vec<TestGroup<RefCell<u32>>> = vec![
        TestGroup::new("alpha", false, vec![(Method::Get, "/thing")]),
        TestGroup::new("beta", false, vec![(Method::Post, "/thing")]),
    ];
    let state = StateHandle::new(RefCell::new(0u32));
    let d = configure(&groups, &state).unwrap_or_else(|_| panic!("composition failed"));
    assert_eq!(d.route_of(Method::Get, "/thing"), Some(0));
    assert_eq!(d.route_of(Method::Post, "/thing"), Some(1));
}

#[test]
fn capture_paths_are_rejected() {
    let groups: Vec<TestGroup<RefCell<u32>>> = vec![TestGroup::new("alpha", false, vec![
        (Method::Get, "/sessions/{id}"),
    ])];
    let state = StateHandle::new(RefCell::new(0u32));
    match configure(&groups, &state) {
        Err(ComposeError::InvalidPath { group, path }) => {
            assert_eq!(group, "alpha");
            assert_eq!(path, "/sessions/{id}");
        },
        _ => panic!("expected the path to be rejected"),
    }
}

#[test]
fn failing_group_aborts_composition_with_its_message() {
    let mut bad: TestGroup<RefCell<u32>> =
        TestGroup::new("broken", false, vec![(Method::Get, "/broken")]);
    bad.fail_with = Some("bad internal configuration");
    let groups = vec![TestGroup::new("fine", false, vec![(Method::Get, "/fine")]), bad];
    let state = StateHandle::new(RefCell::new(0u32));
    match configure(&groups, &state) {
        Err(ComposeError::GroupFailed { group, message }) => {
            assert_eq!(group, "broken");
            assert_eq!(message, "bad internal configuration");
        },
        _ => panic!("expected the group failure to propagate"),
    }
}

#[test]
fn conflicts_are_found_before_any_group_builds() {
    // the broken group never gets to run: the conflict is reported first
    let mut bad: TestGroup<RefCell<u32>> =
        TestGroup::new("broken", false, vec![(Method::Get, "/dup")]);
    bad.fail_with = Some("never reached");
    let groups = vec![TestGroup::new("fine", false, vec![(Method::Get, "/dup")]), bad];
    let state = StateHandle::new(RefCell::new(0u32));
    match configure(&groups, &state) {
        Err(ComposeError::Conflict { .. }) => {},
        _ => panic!("expected the conflict, not the group failure"),
    }
}

#[test]
fn stateful_groups_share_the_one_state_instance() {
    let groups = seven_plus_health();
    let state = StateHandle::new(RefCell::new(5u32));
    configure(&groups, &state).unwrap_or_else(|_| panic!("composition failed"));
    // writing through the original handle is seen through every granted one:
    // the groups hold the identical instance, not a copy
    state.get().replace(42);
    for g in &groups {
        if g.needs_state {
            let received = g.received.borrow();
            let handle = received.as_ref().unwrap_or_else(|| panic!("no handle granted"));
            assert_eq!(*handle.get().borrow(), 42);
        } else {
            assert!(g.received.borrow().is_none());
        }
    }
}

#[test]
fn stateless_groups_compose_without_any_state() {
    let groups: Vec<TestGroup<()>> = vec![
        TestGroup::new("health", false, vec![(Method::Get, "/status")]),
        TestGroup::new("metrics", false, vec![(Method::Get, "/metrics")]),
    ];
    let d = configure_stateless(&groups).unwrap_or_else(|_| panic!("composition failed"));
    assert_eq!(d.route_of(Method::Get, "/status"), Some(0));
    assert_eq!(d.route_of(Method::Get, "/metrics"), Some(1));
    assert!(groups[0].received.borrow().is_none());
    assert!(groups[1].received.borrow().is_none());
}
