//! A configuration-driven HTTP mock engine.
//!
//! Operators describe one or more systems as declarative rule sets; this
//! library compiles those declarations into per-system dispatch tables and
//! resolves each incoming (method, path) request to the configured response,
//! with round-robin selection among multiple response variants registered for
//! the same endpoint.
//!
//! The surrounding process owns all I/O: it deserializes the configuration
//! documents, feeds the plain declaration values to the compiler here, and
//! wires [`dispatch::DispatchTable::dispatch`] into its HTTP transport.

pub mod compile;
pub mod dispatch;
pub mod endpoint;
pub mod model;
