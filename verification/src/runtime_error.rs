//! Everything that can go wrong between receiving a request and invoking an
//! operation, described independently of any wire protocol.

use vstd::prelude::*;
use vstd::string::*;

use crate::method::Method;
use crate::table::UnmatchedReason;

verus! {

/// A failure of request handling that occurred before the operation ran.
#[derive(Clone, Debug, PartialEq, Eq)]
pub enum RuntimeError {
    /// No route matches the request's path.
    RouteNotFound,
    /// Routes match the path, but only for the methods in `allowed`.
    MethodNotAllowed { allowed: Vec<Method> },
    /// The request carries a body but does not say of what type.
    MissingContentType,
    /// The request's content type is not one the operation accepts.
    UnsupportedMediaType,
    /// The request could not be turned into the operation's input.
    DeserializeError(String),
    /// The operation's output could not be turned into a response.
    SerializeError(String),
    /// Anything else that went wrong inside the server.
    InternalFailure,
}

/// Mathematical model of [`RuntimeError`].
pub ghost enum RuntimeErrorSpec {
    RouteNotFound,
    MethodNotAllowed { allowed: Seq<Method> },
    MissingContentType,
    UnsupportedMediaType,
    DeserializeError(Seq<char>),
    SerializeError(Seq<char>),
    InternalFailure,
}

impl View for RuntimeError {
    type V = RuntimeErrorSpec;

    open spec fn view(&self) -> RuntimeErrorSpec {
        match self {
            RuntimeError::RouteNotFound => RuntimeErrorSpec::RouteNotFound,
            RuntimeError::MethodNotAllowed { allowed } => RuntimeErrorSpec::MethodNotAllowed {
                allowed: allowed@,
            },
            RuntimeError::MissingContentType => RuntimeErrorSpec::MissingContentType,
            RuntimeError::UnsupportedMediaType => RuntimeErrorSpec::UnsupportedMediaType,
            RuntimeError::DeserializeError(detail) => RuntimeErrorSpec::DeserializeError(detail@),
            RuntimeError::SerializeError(detail) => RuntimeErrorSpec::SerializeError(detail@),
            RuntimeError::InternalFailure => RuntimeErrorSpec::InternalFailure,
        }
    }
}

/// Mathematical model of [`UnmatchedReason`].
pub ghost enum UnmatchedSpec {
    NoPathMatch,
    PathMatchedWrongMethod { allowed: Seq<Method> },
}

impl View for UnmatchedReason {
    type V = UnmatchedSpec;

    open spec fn view(&self) -> UnmatchedSpec {
        match self {
            UnmatchedReason::NoPathMatch => UnmatchedSpec::NoPathMatch,
            UnmatchedReason::PathMatchedWrongMethod { allowed } => {
                UnmatchedSpec::PathMatchedWrongMethod { allowed: allowed@ }
            },
        }
    }
}

impl RuntimeErrorSpec {
    /// The error that a routing failure becomes.
    pub open spec fn of_unmatched(reason: UnmatchedSpec) -> RuntimeErrorSpec {
        match reason {
            UnmatchedSpec::NoPathMatch => RuntimeErrorSpec::RouteNotFound,
            UnmatchedSpec::PathMatchedWrongMethod { allowed } => RuntimeErrorSpec::MethodNotAllowed {
                allowed,
            },
        }
    }

    /// Whether the failure is the client's doing. A failure to serialize
    /// and an internal failure are the server's; all others are the client's.
    pub open spec fn is_client_error(self) -> bool {
        !(self is SerializeError || self is InternalFailure)
    }
}

impl RuntimeError {
    /// The error that a routing failure becomes: no path match is a route
    /// that was not found, a path match for other methods is a method that
    /// is not allowed, with those methods.
    pub fn from_unmatched(reason: UnmatchedReason) -> (error: RuntimeError)
        ensures
            error@ == RuntimeErrorSpec::of_unmatched(reason@),
    {
        match reason {
            UnmatchedReason::NoPathMatch => RuntimeError::RouteNotFound,
            UnmatchedReason::PathMatchedWrongMethod { allowed } => RuntimeError::MethodNotAllowed {
                allowed,
            },
        }
    }

    /// Whether the failure is the client's doing rather than the server's.
    pub fn is_client_error(&self) -> (client: bool)
        ensures
            client == self@.is_client_error(),
    {
        match self {
            RuntimeError::SerializeError(_) => false,
            RuntimeError::InternalFailure => false,
            _ => true,
        }
    }
}

} // verus!
