//! The router of a service: its route table and its wire protocol.
//!
//! Both are fixed when the server is constructed. For each request the
//! router either names the operation that handles it, with the values of
//! the path labels, or renders the response that tells the client why there
//! is none.

use vstd::prelude::*;
use vstd::string::*;

use crate::matching::{bindings_view, LabelBinding};
use crate::protocol::{rendered, Protocol, WireResponse};
use crate::runtime_error::{RuntimeError, RuntimeErrorSpec};
use crate::matching::request_segments;
use crate::table::{
    allowed_methods, is_first_conflict, is_named_route_outcome, table_wf, templates_view,
    MatchOutcome, MatchOutcomeSpec, RouteTable,
};
use crate::template::{BuildError, BuildErrorSpec, OperationId, RouteTemplate, TemplateSpec};

verus! {

/// Where a request goes: the operation and the values of the path labels.
#[derive(Clone, Debug, PartialEq, Eq)]
pub struct Routed {
    pub operation: OperationId,
    pub labels: Vec<LabelBinding>,
}

/// A route table together with the protocol that failures are rendered in.
#[derive(Debug)]
pub struct Router {
    table: RouteTable,
    protocol: Protocol,
}

/// Mathematical model of [`Router`].
pub ghost struct RouterSpec {
    pub routes: Seq<TemplateSpec>,
    pub protocol: Protocol,
}

impl View for Router {
    type V = RouterSpec;

    closed spec fn view(&self) -> RouterSpec {
        RouterSpec { routes: self.table@, protocol: self.protocol }
    }
}

/// What the router owes for a request: for a match, the operation and the
/// label values that routing gives; for a failure, the response that the
/// protocol renders for it, a route not found where no template matches the
/// path and a method not allowed, with the methods that would do, where
/// templates match for other methods only.
pub open spec fn is_dispatch_result(
    router: RouterSpec,
    method: Seq<char>,
    path: Seq<u8>,
    result: Result<Routed, WireResponse>,
) -> bool {
    match result {
        Ok(routed) => is_named_route_outcome(
            router.routes,
            method,
            path,
            MatchOutcomeSpec::Matched {
                operation: routed.operation,
                labels: bindings_view(routed.labels@),
            },
        ),
        Err(response) => {
            ||| {
                &&& is_named_route_outcome(
                    router.routes,
                    method,
                    path,
                    MatchOutcomeSpec::NoPathMatch,
                )
                &&& response@ == rendered(router.protocol, RuntimeErrorSpec::RouteNotFound)
            }
            ||| {
                &&& request_segments(path) matches Some(pieces)
                &&& is_named_route_outcome(
                    router.routes,
                    method,
                    path,
                    MatchOutcomeSpec::PathMatchedWrongMethod {
                        allowed: allowed_methods(router.routes, pieces),
                    },
                )
                &&& response@ == rendered(
                    router.protocol,
                    RuntimeErrorSpec::MethodNotAllowed {
                        allowed: allowed_methods(router.routes, pieces),
                    },
                )
            }
        },
    }
}

impl Router {
    /// Builds the router of a service. It comes into being exactly when the
    /// templates are free of conflicts; the error is that of the table.
    pub fn new(protocol: Protocol, templates: Vec<RouteTemplate>) -> (built: Result<
        Router,
        BuildError,
    >)
        ensures
            match built {
                Ok(router) => router@ == (RouterSpec {
                    routes: templates_view(templates@),
                    protocol,
                }) && table_wf(router@.routes),
                Err(error) => exists|i: int, j: int|
                    #![trigger is_first_conflict(templates_view(templates@), i, j)]
                    is_first_conflict(templates_view(templates@), i, j) && error@
                        == (BuildErrorSpec::Ambiguous {
                        first: i,
                        second: j,
                        first_pattern: templates_view(templates@)[i].pattern,
                        second_pattern: templates_view(templates@)[j].pattern,
                    }),
            },
    {
        match RouteTable::build(templates) {
            Ok(table) => Ok(Router { table, protocol }),
            Err(error) => Err(error),
        }
    }

    /// The route table.
    pub fn table(&self) -> (table: &RouteTable)
        ensures
            table@ == self@.routes,
    {
        &self.table
    }

    /// The protocol that failures are rendered in.
    pub fn protocol(&self) -> (protocol: Protocol)
        ensures
            protocol == self@.protocol,
    {
        self.protocol
    }

    /// Decides on one request: the operation and label values of a match,
    /// or the rendered response of a failure. Every request gets one of the
    /// two, as [`is_dispatch_result`] says.
    pub fn dispatch(&self, method: &str, path: &str) -> (result: Result<Routed, WireResponse>)
        ensures
            is_dispatch_result(self@, method@, path.spec_bytes(), result),
    {
        match self.table.route_named(method, path) {
            MatchOutcome::Matched { operation, labels } => Ok(Routed { operation, labels }),
            MatchOutcome::Unmatched(reason) => {
                Err(RuntimeError::from_unmatched(reason).into_response(self.protocol))
            },
        }
    }
}

} // verus!
