//! Verified core of a small DNS-record relay service.
//!
//! The service accepts a `POST /api/v1/dns_records` request whose body is a
//! JSON object `{"name": <subdomain>}`, composes an authenticated request
//! that creates an `A` record at a remote DNS provider, and reports a uniform
//! result to the caller.  Everything that computes — configuration
//! validation, JSON encoding and decoding, request planning, response
//! mapping — lives here and is verified; the network and file-system edges
//! live in the unverified binary around this crate.

pub mod config;
pub mod handler;
pub mod json;
pub mod request;
pub mod text;
