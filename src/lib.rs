//! A MogileFS-compatible tracker and client core: the line protocol, the
//! typed operations, an in-memory backend, the dispatcher and the client's
//! connection state machine.

pub mod backend;
pub mod bytes;
pub mod client;
pub mod decimal;
pub mod error;
pub mod form;
pub mod location;
pub mod message;
pub mod model;
pub mod requests;
pub mod tracker;
