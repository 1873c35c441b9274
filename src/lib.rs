//! A stateless proof-of-work admission gate.
//!
//! A client receives an HMAC-signed, client-bound, time-limited challenge in a
//! cookie, solves a SHA-256 puzzle over it and sends the challenge back with
//! its solution. Every decision is made from the request's own cookies, the
//! client identifier and the current time.

// Byte and time helpers, and the encodings the protocol is built on.
pub mod util;
pub mod hex_codec;

// The components, leaf first.
pub mod address;
pub mod pow;
pub mod config;
pub mod encryption;
pub mod cookie_parse;
pub mod cookie_verify;
pub mod gatekeep;
