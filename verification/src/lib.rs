//! A minimal user-record service core: request parsing, routing, a JSON
//! transcoder for user records, and the decision logic of the five CRUD
//! handlers, all specified and verified. The network transport and the
//! relational store driver live outside this crate.

pub mod codec;
pub mod laws;
pub mod request;
pub mod router;
pub mod store;
pub mod user;
