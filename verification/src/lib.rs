//! Rule engine for an HTTP fault-injection proxy.
//!
//! The crate decides whether an in-flight request or response matches a
//! declarative rule (a [`rule::Selector`]) and applies the rule's mutations
//! (a [`rule::Actions`]): appending query parameters, replacing the path,
//! merging query overrides, editing headers, or aborting the exchange.
//!
//! Requests, responses and URIs are carried as plain byte values so that
//! every algorithm here is verified; the surrounding proxy converts its
//! wire-level types into these models at the boundary.

pub mod apply;
pub mod bytes;
pub mod headers;
pub mod laws;
pub mod matcher;
pub mod message;
pub mod query;
pub mod rule;
pub mod uri;
