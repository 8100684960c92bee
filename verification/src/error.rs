use vstd::prelude::*;

verus! {

/// Fatal session errors.
///
/// A failed cryptographic check is not an error: it surfaces as a `false`
/// verification verdict.  These variants cover the fatal conditions: a
/// stream or buffer that ends before a declared length (framing), bytes
/// that do not decode to a certificate (deserialization), an unexpected
/// status message, and a repeat connection for a session identifier the
/// server never saw as a first connection.
#[derive(Clone, Copy, Debug, PartialEq, Eq, Structural)]
pub enum ProtoError {
    Truncated,
    DecodeFailed,
    BadStatus,
    CacheMiss,
}

} // verus!
