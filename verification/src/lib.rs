//! Client core for a social-platform REST API that uses OAuth 1.0a
//! three-legged authorization and a comet-style long-poll channel.
//!
//! The crate covers the signed-request subsystem (HMAC-SHA1 `Authorization`
//! headers with exact parameter collection and ordering), the three-legged
//! authorization handshake, and the comet channel's URL derivation, polling
//! protocol and JSONP-style response unwrapping with offset advancement.
//! Network transport, terminal prompting and on-disk key persistence are the
//! caller's job: every function here is a pure computation over plain values.

pub mod comet;
pub mod encoding;
pub mod error;
pub mod json;
pub mod laws;
pub mod numeric;
pub mod plurk;
pub mod query;
pub mod sign;
pub mod strutil;
