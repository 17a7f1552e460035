//! A verified "send a coffee" service: a caller attaches a short message and
//! a receiver to a value transfer; accepted messages are durably recorded and
//! can later be fetched or deleted by identifier. A message is committed to
//! the store exactly when the external ledger transfer reported success.

pub mod codec;
pub mod ids;
pub mod laws;
pub mod service;
pub mod stable;
pub mod store;
pub mod types;
