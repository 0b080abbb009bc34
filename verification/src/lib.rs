//! Client library for a challenge/response captive-portal authentication
//! protocol, together with a session controller that serializes concurrent
//! user-triggered operations against the gateway.
//!
//! The protocol engine builds the exact login/logout messages: challenge
//! retrieval, an encrypted payload envelope with a custom base64 alphabet,
//! a checksum over an ordered field concatenation, and a gateway-identifier
//! search with a fixed candidate order. The session controller is a state
//! machine over discrete actions; every transition is stated in its contract.

pub mod acid;
pub mod auth;
pub mod base64;
pub mod checksum;
pub mod cipher;
pub mod detail;
pub mod digest;
pub mod envelope;
pub mod http;
pub mod jsonp;
pub mod model;
pub mod settings;
pub mod strfmt;
pub mod strutil;
pub mod types;
