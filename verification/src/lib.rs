//! The core of a small HTTP service that keeps user records: it reads a
//! request, finds the operation that it asks for, and takes the exchange with
//! the codec and the record store step by step to the response. The crate
//! performs no I/O: a driver reads and writes the connection, runs the
//! queries and calls the codec.
//!
//! - `util` scans the text of a request: method, path, identifier, body.
//! - `server` holds the routing and the handler, one step at a time.
//! - `store` holds the queries, their answers, and a model of the table.
//! - `session` states what holds of whole exchanges against that model.
//! - `model` holds the record type.

use vstd::prelude::*;

pub mod model;
pub mod server;
pub mod session;
pub mod store;
pub mod util;

verus! {

/// Status line of a successful response.
pub const OK_RESPONSE: &'static str = "HTTP/1.1 200 OK\r\n\r\n";

/// Status line of a response to an unknown route or a missing record.
pub const NOT_FOUND: &'static str = "HTTP/1.1 404 NOT FOUND\r\n\r\n";

/// Status line of a response to a request that could not be carried out.
pub const INTERNAL_SERVER_ERROR: &'static str = "HTTP/1.1 500 INTERNAL SERVER ERROR\r\n\r\n";

} // verus!
