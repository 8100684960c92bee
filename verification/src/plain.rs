//! The plain handshake variant: the baseline protocol under the classical
//! Ed25519 signing capability.

use vstd::prelude::*;

use crate::chain::{chain_views, make_cert_chain, spec_chain_ok};
use crate::eddsa::Eddsa;
use crate::handshake::{honest_pair, BaselineClient, BaselineServer};

verus! {

/// The client role's state for the plain variant.
pub type ClientCtx = BaselineClient<Eddsa>;

/// The server role's state for the plain variant.
pub type ServerCtx = BaselineServer<Eddsa>;

/// The plain (classical-scheme) handshake variant.  Its four steps are
/// the generic baseline steps in `handshake`, instantiated at `Eddsa`.
pub struct PlainTls;

impl PlainTls {
    /// Build one session's pair of contexts: run the chain builder once
    /// and hand the client the root verifying key and the server the
    /// chain and the end-entity signing key.
    pub fn new() -> (r: (ClientCtx, ServerCtx))
        ensures
            honest_pair(r.0, r.1),
    {
        let mut chain_scheme = Eddsa;
        let (cert_chain, pk_root, sk_root, sk_end) = make_cert_chain(&mut chain_scheme);
        (
            BaselineClient { scheme: Eddsa, pk_root, sk_root },
            BaselineServer { scheme: Eddsa, cert_chain, sk_end },
        )
    }
}

} // verus!
