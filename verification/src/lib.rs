//! A load-generation and measurement harness core for key-value wire
//! protocols: a Redis-family protocol codec that synthesizes requests and
//! incrementally parses responses, and a metrics snapshot engine that
//! computes interval rates and renders reports.

pub mod admin;
pub mod codec;
pub mod keyspace;
pub mod laws;
pub mod metrics;
pub mod num;
pub mod render;
pub mod session;
pub mod snapshot;
pub mod textsort;
