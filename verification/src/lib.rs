//! A local HTTP client's request persistence and replay engine.
//!
//! The library encodes an in-memory request into a durable row, decodes a
//! stored row back into an executable request, records every request and
//! response in an in-memory image of the storage tables, and reconstructs a
//! previously issued request for retry. Round-trip fidelity of the
//! encode/decode cycle is proved, together with the persistence ordering and
//! retrieval rules.

use vstd::prelude::*;

pub mod codec;
pub mod command;
pub mod db;
pub mod http;
pub mod model;
pub mod time;

verus! {

/// The errors this library reports: decoding failures of stored rows, lookup
/// failures, and the failure kinds of the two collaborators (transport and
/// storage).
#[derive(Clone, Copy, Debug, PartialEq, Eq, Structural)]
pub enum ApibotError {
    /// A stored header blob does not parse as a JSON object of strings.
    MalformedHeaderRecord,
    /// A version string outside the closed five-value set.
    UnknownProtocolVersion,
    /// A method that is not a syntactically valid HTTP token.
    InvalidMethod,
    /// A lookup by id matched no row.
    RequestNotFound,
    /// The network call itself failed; the request row is kept.
    TransportFailure,
    /// The storage file could not be opened or written.
    StorageUnavailable,
}

} // verus!
