//! Request routing and error rendering for a generated RPC server runtime,
//! together with the endpoint URL check used when a client resolves the
//! remote endpoint it will call.

pub mod endpoint;
pub mod extension;
pub mod matching;
pub mod method;
pub mod plugin;
pub mod protocol;
pub mod round_trip;
pub mod router;
pub mod runtime_error;
pub mod table;
pub mod template;
pub mod text;
