use smithy_routing::extension::ExtensionKey;
use smithy_routing::matching::LabelBinding;
use smithy_routing::method::Method;
use smithy_routing::protocol::Protocol;
use smithy_routing::router::{Routed, Router};
use smithy_routing::template::{BuildError, OperationId, RouteTemplate};

fn template(method: Method, pattern: &str, operation: u64) -> RouteTemplate {
    RouteTemplate::compile(method, pattern, OperationId(operation)).expect("valid pattern")
}

fn items_router(protocol: Protocol) -> Router {
    Router::new(
        protocol,
        vec![
            template(Method::Get, "/items/{id}", 1),
            template(Method::Get, "/items/fixed", 2),
            template(Method::Put, "/items/{id}", 3),
        ],
    )
    .expect("unambiguous routes")
}

#[test]
fn dispatch_names_the_operation_of_a_match() {
    let router = items_router(Protocol::RestJson1);
    assert_eq!(
        router.dispatch("GET", "/items/5"),
        Ok(Routed {
            operation: OperationId(1),
            labels: vec![LabelBinding { name: b"id".to_vec(), value: b"5".to_vec() }],
        })
    );
    assert_eq!(
        router.dispatch("GET", "/items/fixed"),
        Ok(Routed { operation: OperationId(2), labels: vec![] })
    );
    assert_eq!(
        router.dispatch("PUT", "/items/fixed"),
        Ok(Routed {
            operation: OperationId(3),
            labels: vec![LabelBinding { name: b"id".to_vec(), value: b"fixed".to_vec() }],
        })
    );
}

#[test]
fn dispatch_renders_not_found() {
    let router = items_router(Protocol::RestJson1);
    let response = router.dispatch("GET", "/unknown").expect_err("no route");
    assert_eq!(response.status, 404);
    assert_eq!(response.header("Content-Type"), Some("application/json"));
    assert_eq!(response.header("X-Amzn-Errortype"), Some("UnknownOperationException"));
    assert_eq!(response.body, b"{}".to_vec());
    assert_eq!(
        response.extensions.get(ExtensionKey::RuntimeErrorType),
        Some("UnknownOperationException")
    );
}

#[test]
fn dispatch_renders_method_not_allowed() {
    let router = items_router(Protocol::RestXml);
    let response = router.dispatch("POST", "/items/5").expect_err("wrong method");
    assert_eq!(response.status, 405);
    assert_eq!(response.header("Allow"), Some("GET, PUT"));
    assert!(response.body.is_empty());
    let response = router.dispatch("BREW", "/items/5").expect_err("no such method");
    assert_eq!(response.status, 405);
    assert_eq!(response.header("Allow"), Some("GET, PUT"));
}

#[test]
fn dispatch_renders_in_the_router_s_protocol() {
    let router = items_router(Protocol::AwsJson11);
    assert_eq!(router.protocol(), Protocol::AwsJson11);
    assert_eq!(router.table().len(), 3);
    let response = router.dispatch("GET", "/unknown").expect_err("no route");
    assert_eq!(response.status, 404);
    assert_eq!(response.header("Content-Type"), Some("application/x-amz-json-1.1"));
}

#[test]
fn router_is_not_built_from_ambiguous_templates() {
    let built = Router::new(
        Protocol::RestJson1,
        vec![template(Method::Get, "/a/{x}", 1), template(Method::Get, "/a/{y}", 2)],
    );
    match built {
        Err(BuildError::Ambiguous { first, second, first_pattern, second_pattern }) => {
            assert_eq!((first, second), (0, 1));
            assert_eq!(first_pattern, "/a/{x}");
            assert_eq!(second_pattern, "/a/{y}");
        }
        other => panic!("expected an ambiguity, got {:?}", other),
    }
}

fn shared_between_threads<T: Send + Sync>() {}

#[test]
fn router_and_table_can_be_shared_read_only() {
    shared_between_threads::<Router>();
    shared_between_threads::<smithy_routing::table::RouteTable>();
    shared_between_threads::<RouteTemplate>();
}
