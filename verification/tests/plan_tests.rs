use goose_routes::endpoint::{Endpoint, Method};
use goose_routes::error::ComposeError;
use goose_routes::plan::{check_paths, plan_routes, GroupDecl};

fn decl(name: &str, needs_state: bool, routes: &[(Method, &str)]) -> GroupDecl {
    GroupDecl {
        name: name.to_owned(),
        needs_state,
        endpoints: routes.iter().map(|(m, p)| Endpoint::new(*m, p)).collect(),
    }
}

#[test]
fn plan_tags_each_route_with_its_group() {
    let decls = vec![
        decl("health", false, &[(Method::Get, "/status")]),
        decl("agent", true, &[(Method::Post, "/agent"), (Method::Get, "/agent/versions")]),
    ];
    let table = plan_routes(&decls).unwrap_or_else(|_| panic!("planning failed"));
    assert_eq!(table.len(), 3);
    assert_eq!(table[0].method, Method::Get);
    assert_eq!(table[0].path, "/status");
    assert_eq!(table[0].group, 0);
    assert_eq!(table[1].method, Method::Post);
    assert_eq!(table[1].path, "/agent");
    assert_eq!(table[1].group, 1);
    assert_eq!(table[2].method, Method::Get);
    assert_eq!(table[2].path, "/agent/versions");
    assert_eq!(table[2].group, 1);
}

#[test]
fn plan_reports_both_claimants_of_a_duplicate() {
    let decls = vec![
        decl("first", false, &[(Method::Put, "/shared")]),
        decl("second", false, &[(Method::Put, "/shared")]),
    ];
    match plan_routes(&decls) {
        Err(ComposeError::Conflict { first_group, second_group, method, path }) => {
            assert_eq!(first_group, "first");
            assert_eq!(second_group, "second");
            assert_eq!(method, Method::Put);
            assert_eq!(path, "/shared");
        },
        _ => panic!("expected a conflict"),
    }
}

#[test]
fn check_paths_reports_the_offending_group() {
    let decls = vec![
        decl("fine", false, &[(Method::Get, "/ok")]),
        decl("wild", false, &[(Method::Get, "/files/{*rest}")]),
    ];
    match check_paths(&decls) {
        Err(ComposeError::InvalidPath { group, path }) => {
            assert_eq!(group, "wild");
            assert_eq!(path, "/files/{*rest}");
        },
        _ => panic!("expected the path to be rejected"),
    }
    let fine = vec![decl("fine", false, &[(Method::Get, "/ok")])];
    assert!(check_paths(&fine).is_ok());
}
