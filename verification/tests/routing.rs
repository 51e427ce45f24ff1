use smithy_routing::matching::LabelBinding;
use smithy_routing::method::Method;
use smithy_routing::protocol::Protocol;
use smithy_routing::runtime_error::RuntimeError;
use smithy_routing::table::{MatchOutcome, RouteTable, UnmatchedReason};
use smithy_routing::template::{BuildError, OperationId, RouteTemplate};

fn template(method: Method, pattern: &str, operation: u64) -> RouteTemplate {
    RouteTemplate::compile(method, pattern, OperationId(operation)).expect("valid pattern")
}

fn table(routes: Vec<RouteTemplate>) -> RouteTable {
    RouteTable::build(routes).expect("unambiguous routes")
}

fn binding(name: &str, value: &str) -> LabelBinding {
    LabelBinding { name: name.as_bytes().to_vec(), value: value.as_bytes().to_vec() }
}

fn matched(operation: u64, labels: Vec<LabelBinding>) -> MatchOutcome {
    MatchOutcome::Matched { operation: OperationId(operation), labels }
}

#[test]
fn literal_takes_precedence_over_label() {
    let t = table(vec![
        template(Method::Get, "/items/{id}", 1),
        template(Method::Get, "/items/fixed", 2),
    ]);
    assert_eq!(t.route(Method::Get, "/items/fixed"), matched(2, vec![]));
    assert_eq!(t.route(Method::Get, "/items/other"), matched(1, vec![binding("id", "other")]));
}

#[test]
fn literal_takes_precedence_whatever_the_order() {
    let t = table(vec![
        template(Method::Get, "/items/fixed", 2),
        template(Method::Get, "/items/{id}", 1),
    ]);
    assert_eq!(t.route(Method::Get, "/items/fixed"), matched(2, vec![]));
    assert_eq!(t.route(Method::Get, "/items/5"), matched(1, vec![binding("id", "5")]));
}

#[test]
fn wrong_method_lists_allowed_methods_and_renders_405() {
    let t = table(vec![template(Method::Get, "/items/{id}", 1)]);
    let outcome = t.route(Method::Post, "/items/5");
    assert_eq!(
        outcome,
        MatchOutcome::Unmatched(UnmatchedReason::PathMatchedWrongMethod {
            allowed: vec![Method::Get]
        })
    );
    let reason = match outcome {
        MatchOutcome::Unmatched(reason) => reason,
        MatchOutcome::Matched { .. } => panic!("must not match"),
    };
    let response = RuntimeError::from_unmatched(reason).into_response(Protocol::RestJson1);
    assert_eq!(response.status, 405);
    assert_eq!(response.header("Allow"), Some("GET"));
    assert_eq!(response.headers.len(), 1);
    assert_eq!(response.headers[0].name, "Allow");
    assert_eq!(response.headers[0].value, "GET");
    assert!(response.body.is_empty());
    assert_eq!(response.extensions.len(), 0);
}

#[test]
fn unknown_path_is_no_path_match_and_renders_404() {
    let t = table(vec![template(Method::Get, "/items/{id}", 1)]);
    for method in [Method::Get, Method::Post, Method::Delete] {
        let outcome = t.route(method, "/unknown");
        assert_eq!(outcome, MatchOutcome::Unmatched(UnmatchedReason::NoPathMatch));
    }
    let response = RuntimeError::from_unmatched(UnmatchedReason::NoPathMatch)
        .into_response(Protocol::RestJson1);
    assert_eq!(response.status, 404);
    assert_eq!(response.header("Content-Type"), Some("application/json"));
    assert_eq!(response.header("X-Amzn-Errortype"), Some("UnknownOperationException"));
    assert_eq!(response.body, b"{}".to_vec());
}

#[test]
fn two_labels_in_the_same_place_are_ambiguous() {
    let built = RouteTable::build(vec![
        template(Method::Get, "/a/{x}", 1),
        template(Method::Get, "/a/{y}", 2),
    ]);
    match built {
        Err(BuildError::Ambiguous { first, second, first_pattern, second_pattern }) => {
            assert_eq!(first, 0);
            assert_eq!(second, 1);
            assert_eq!(first_pattern, "/a/{x}");
            assert_eq!(second_pattern, "/a/{y}");
        }
        other => panic!("expected an ambiguity, got {:?}", other),
    }
}

#[test]
fn same_shape_for_other_methods_is_not_ambiguous() {
    let t = table(vec![
        template(Method::Get, "/a/{x}", 1),
        template(Method::Put, "/a/{y}", 2),
    ]);
    assert_eq!(t.len(), 2);
    assert_eq!(t.route(Method::Put, "/a/b"), matched(2, vec![binding("y", "b")]));
    assert_eq!(t.route(Method::Get, "/a/b"), matched(1, vec![binding("x", "b")]));
}

#[test]
fn first_conflicting_pair_is_reported() {
    let built = RouteTable::build(vec![
        template(Method::Get, "/p/{a}", 1),
        template(Method::Get, "/q/{b}", 2),
        template(Method::Get, "/q/{c}", 3),
        template(Method::Get, "/p/{d}", 4),
    ]);
    match built {
        Err(BuildError::Ambiguous { first, second, first_pattern, second_pattern }) => {
            assert_eq!((first, second), (0, 3));
            assert_eq!(first_pattern, "/p/{a}");
            assert_eq!(second_pattern, "/p/{d}");
        }
        other => panic!("expected an ambiguity, got {:?}", other),
    }
}

#[test]
fn label_against_greedy_label_is_ambiguous() {
    let built = RouteTable::build(vec![
        template(Method::Get, "/a/{x}", 1),
        template(Method::Get, "/a/{rest+}", 2),
    ]);
    assert!(matches!(built, Err(BuildError::Ambiguous { first: 0, second: 1, .. })));
}

#[test]
fn identical_literal_routes_are_ambiguous() {
    let built = RouteTable::build(vec![
        template(Method::Get, "/a/b", 1),
        template(Method::Get, "/a/b", 2),
    ]);
    assert!(matches!(built, Err(BuildError::Ambiguous { first: 0, second: 1, .. })));
}

#[test]
fn routes_of_different_length_do_not_conflict() {
    let t = table(vec![
        template(Method::Get, "/a", 1),
        template(Method::Get, "/a/{x}", 2),
        template(Method::Get, "/a/{x}/{y}", 3),
    ]);
    assert_eq!(t.route(Method::Get, "/a"), matched(1, vec![]));
    assert_eq!(t.route(Method::Get, "/a/1"), matched(2, vec![binding("x", "1")]));
    assert_eq!(
        t.route(Method::Get, "/a/1/2"),
        matched(3, vec![binding("x", "1"), binding("y", "2")])
    );
    assert_eq!(
        t.route(Method::Get, "/a/1/2/3"),
        MatchOutcome::Unmatched(UnmatchedReason::NoPathMatch)
    );
}

#[test]
fn longer_literal_prefix_beats_greedy_label() {
    let t = table(vec![
        template(Method::Get, "/files/{path+}", 1),
        template(Method::Get, "/files/meta/{name}", 2),
    ]);
    assert_eq!(t.route(Method::Get, "/files/meta/x"), matched(2, vec![binding("name", "x")]));
    assert_eq!(
        t.route(Method::Get, "/files/a/b/c"),
        matched(1, vec![binding("path", "a/b/c")])
    );
    assert_eq!(t.route(Method::Get, "/files/meta"), matched(1, vec![binding("path", "meta")]));
    assert_eq!(
        t.route(Method::Get, "/files/meta/x/y"),
        matched(1, vec![binding("path", "meta/x/y")])
    );
}

#[test]
fn first_literal_decides_precedence() {
    let t = table(vec![
        template(Method::Get, "/{y}/b/c", 2),
        template(Method::Get, "/a/{x}/c", 1),
    ]);
    assert_eq!(t.route(Method::Get, "/a/b/c"), matched(1, vec![binding("x", "b")]));
    assert_eq!(t.route(Method::Get, "/z/b/c"), matched(2, vec![binding("y", "z")]));
    assert_eq!(t.route(Method::Get, "/a/q/c"), matched(1, vec![binding("x", "q")]));
}

#[test]
fn greedy_label_needs_at_least_one_segment() {
    let t = table(vec![template(Method::Get, "/files/{path+}", 1)]);
    assert_eq!(
        t.route(Method::Get, "/files"),
        MatchOutcome::Unmatched(UnmatchedReason::NoPathMatch)
    );
    assert_eq!(
        t.route(Method::Get, "/files/"),
        MatchOutcome::Unmatched(UnmatchedReason::NoPathMatch)
    );
    assert_eq!(t.route(Method::Get, "/files/a"), matched(1, vec![binding("path", "a")]));
}

#[test]
fn empty_segments_match_nothing() {
    let t = table(vec![
        template(Method::Get, "/a/{x}/b", 1),
        template(Method::Get, "/f/{rest+}", 2),
    ]);
    assert_eq!(
        t.route(Method::Get, "/a//b"),
        MatchOutcome::Unmatched(UnmatchedReason::NoPathMatch)
    );
    assert_eq!(
        t.route(Method::Get, "/f/a//b"),
        MatchOutcome::Unmatched(UnmatchedReason::NoPathMatch)
    );
}

#[test]
fn one_trailing_slash_is_dropped() {
    let t = table(vec![template(Method::Get, "/items/{id}", 1)]);
    assert_eq!(t.route(Method::Get, "/items/5/"), matched(1, vec![binding("id", "5")]));
    assert_eq!(
        t.route(Method::Get, "/items/5//"),
        MatchOutcome::Unmatched(UnmatchedReason::NoPathMatch)
    );
}

#[test]
fn root_pattern_matches_root_path() {
    let t = table(vec![template(Method::Get, "/", 9)]);
    assert_eq!(t.route(Method::Get, "/"), matched(9, vec![]));
    assert_eq!(
        t.route(Method::Get, "/a"),
        MatchOutcome::Unmatched(UnmatchedReason::NoPathMatch)
    );
    assert_eq!(
        t.route(Method::Post, "/"),
        MatchOutcome::Unmatched(UnmatchedReason::PathMatchedWrongMethod {
            allowed: vec![Method::Get]
        })
    );
}

#[test]
fn path_without_leading_slash_matches_nothing() {
    let t = table(vec![template(Method::Get, "/items/{id}", 1), template(Method::Get, "/", 2)]);
    assert_eq!(
        t.route(Method::Get, "items/5"),
        MatchOutcome::Unmatched(UnmatchedReason::NoPathMatch)
    );
    assert_eq!(t.route(Method::Get, ""), MatchOutcome::Unmatched(UnmatchedReason::NoPathMatch));
}

#[test]
fn empty_table_matches_nothing() {
    let t = table(vec![]);
    assert_eq!(t.len(), 0);
    assert!(t.get(0).is_none());
    assert_eq!(t.route(Method::Get, "/"), MatchOutcome::Unmatched(UnmatchedReason::NoPathMatch));
}

#[test]
fn allowed_methods_come_once_each_in_table_order() {
    let t = table(vec![
        template(Method::Put, "/items/{id}", 1),
        template(Method::Get, "/items/{id}", 2),
        template(Method::Put, "/items/fixed", 3),
        template(Method::Delete, "/other", 4),
    ]);
    assert_eq!(
        t.route(Method::Post, "/items/fixed"),
        MatchOutcome::Unmatched(UnmatchedReason::PathMatchedWrongMethod {
            allowed: vec![Method::Put, Method::Get]
        })
    );
    let response = RuntimeError::MethodNotAllowed { allowed: vec![Method::Put, Method::Get] }
        .into_response(Protocol::RestJson1);
    assert_eq!(response.status, 405);
    assert_eq!(response.header("allow"), Some("PUT, GET"));
}

#[test]
fn routing_is_deterministic() {
    let t = table(vec![
        template(Method::Get, "/items/{id}", 1),
        template(Method::Get, "/items/fixed", 2),
        template(Method::Put, "/items/{id}/parts/{part+}", 3),
    ]);
    for (method, path) in [
        (Method::Get, "/items/fixed"),
        (Method::Get, "/items/7"),
        (Method::Put, "/items/7/parts/a/b"),
        (Method::Post, "/items/7"),
        (Method::Get, "/nothing/here"),
    ] {
        let first = t.route(method, path);
        let second = t.route(method, path);
        assert_eq!(first, second);
    }
}

#[test]
fn round_trip_recovers_operation_and_values() {
    let t = table(vec![
        template(Method::Get, "/users/{user}/repos/{repo}", 11),
        template(Method::Get, "/users/{user}/files/{path+}", 12),
        template(Method::Get, "/users/me/repos/{repo}", 13),
    ]);
    let path = format!("/users/{}/repos/{}", "alice", "verus");
    assert_eq!(
        t.route(Method::Get, &path),
        matched(11, vec![binding("user", "alice"), binding("repo", "verus")])
    );
    let path = format!("/users/{}/files/{}", "bob", "src/lib/mod.rs");
    assert_eq!(
        t.route(Method::Get, &path),
        matched(12, vec![binding("user", "bob"), binding("path", "src/lib/mod.rs")])
    );
}

#[test]
fn round_trip_yields_to_a_template_that_takes_precedence() {
    let t = table(vec![
        template(Method::Get, "/items/{id}", 1),
        template(Method::Get, "/items/fixed", 2),
    ]);
    let path = format!("/items/{}", "fixed");
    assert_eq!(t.route(Method::Get, &path), matched(2, vec![]));
}

#[test]
fn table_keeps_routes_in_order() {
    let t = table(vec![template(Method::Get, "/a", 1), template(Method::Post, "/b/{x}", 2)]);
    assert_eq!(t.len(), 2);
    let second = t.get(1).expect("two routes");
    assert_eq!(second.method(), Method::Post);
    assert_eq!(second.pattern(), "/b/{x}");
    assert_eq!(second.operation(), OperationId(2));
    assert_eq!(second.segments().len(), 2);
    assert!(t.get(2).is_none());
}

#[test]
fn non_ascii_segments_are_bytes() {
    let t = table(vec![template(Method::Get, "/caf\u{e9}/{name}", 1)]);
    assert_eq!(
        t.route(Method::Get, "/caf\u{e9}/\u{fc}ber"),
        matched(1, vec![binding("name", "\u{fc}ber")])
    );
}

#[test]
fn ambiguity_is_described_with_both_patterns() {
    let error = RouteTable::build(vec![
        template(Method::Get, "/a/{x}", 1),
        template(Method::Get, "/a/{y}", 2),
    ])
    .expect_err("ambiguous");
    assert_eq!(
        error.describe(),
        "ambiguous routes: /a/{x} and /a/{y} can match the same path"
    );
}

#[test]
fn route_named_takes_the_method_by_its_wire_name() {
    let t = table(vec![
        template(Method::Get, "/items/{id}", 1),
        template(Method::Delete, "/items/{id}", 2),
    ]);
    assert_eq!(t.route_named("GET", "/items/5"), matched(1, vec![binding("id", "5")]));
    assert_eq!(t.route_named("DELETE", "/items/5"), matched(2, vec![binding("id", "5")]));
    assert_eq!(
        t.route_named("POST", "/items/5"),
        MatchOutcome::Unmatched(UnmatchedReason::PathMatchedWrongMethod {
            allowed: vec![Method::Get, Method::Delete]
        })
    );
}

#[test]
fn unknown_method_names_are_methods_that_nothing_answers_to() {
    let t = table(vec![template(Method::Get, "/items/{id}", 1)]);
    assert_eq!(
        t.route_named("PROPFIND", "/items/5"),
        MatchOutcome::Unmatched(UnmatchedReason::PathMatchedWrongMethod {
            allowed: vec![Method::Get]
        })
    );
    assert_eq!(
        t.route_named("get", "/items/5"),
        MatchOutcome::Unmatched(UnmatchedReason::PathMatchedWrongMethod {
            allowed: vec![Method::Get]
        })
    );
    assert_eq!(
        t.route_named("PROPFIND", "/other"),
        MatchOutcome::Unmatched(UnmatchedReason::NoPathMatch)
    );
    assert_eq!(
        t.route_named("PROPFIND", "items/5"),
        MatchOutcome::Unmatched(UnmatchedReason::NoPathMatch)
    );
}

#[test]
fn allowed_lists_the_methods_of_matching_templates() {
    let t = table(vec![
        template(Method::Get, "/items/{id}", 1),
        template(Method::Put, "/items/{id}", 2),
        template(Method::Get, "/items/fixed", 3),
        template(Method::Post, "/items", 4),
    ]);
    assert_eq!(t.allowed("/items/fixed"), vec![Method::Get, Method::Put]);
    assert_eq!(t.allowed("/items"), vec![Method::Post]);
    assert_eq!(t.allowed("/nothing"), Vec::<Method>::new());
    assert_eq!(t.allowed("items"), Vec::<Method>::new());
}
