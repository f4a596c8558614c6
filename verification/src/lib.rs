//! A small client for the fal inference API.
//!
//! The crate holds the decisions of the client: which credentials a set of
//! environment variables yields, how credentials are rendered into the
//! `Authorization` header, which URL a function identifier is sent to, and how
//! the answer of the transport is classified. Sending the request is left to
//! the caller, who hands in the environment and the transport's outcome as
//! plain values.

pub mod client;
pub mod environment;
pub mod error;
