//! A TLS-like mutual-authentication handshake library with a pluggable
//! signing capability, a canonical certificate wire encoding, a three-link
//! chain of trust, and a session-caching handshake variant that amortizes
//! certificate transmission across repeat connections.

pub mod cert;
pub mod chain;
pub mod clientcache;
pub mod eddsa;
pub mod encoding;
pub mod error;
pub mod falcon;
pub mod handshake;
pub mod names;
pub mod plain;
pub mod pqc;
pub mod pqccache;
pub mod signing_scheme;
pub mod stream;
