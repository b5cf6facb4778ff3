//! A concurrent read-serving bridge: lookup requests are forwarded to a
//! bounded pool of blocking workers that query a key-value store, and each
//! result is returned to its caller serialized in a format chosen by content
//! negotiation.
//!
//! The pool and its message protocol are modelled as a verified state
//! machine; the negotiator and its wire formats are verified byte-level
//! functions.

pub mod bridge;
pub mod console;
pub mod negotiate;
pub mod parse;
pub mod pool;
pub mod protocol;
pub mod record;
pub mod render;
pub mod respond;
pub mod store;
pub mod worker;

pub use protocol::Fault;
pub use protocol::LookupResult;
