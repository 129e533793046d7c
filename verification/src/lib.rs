//! An HTTP-facing adapter over a single remote key-value store.
//!
//! The library is the translation layer of the service: it routes a request
//! by method and path, validates the JSON payload of a write, propagates the
//! optional expiration, and maps each store outcome to an HTTP status and
//! body.  The store itself is a remote service; talking to it is I/O and
//! stays outside the library, which only decides what to ask of the store
//! and how to render what came back.

pub mod json;
pub mod laws;
pub mod outcome;
pub mod request;
pub mod respond;
pub mod route;
