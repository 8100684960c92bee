//! The post-quantum handshake variant: the same baseline protocol,
//! parameterized by whichever signing capability stands in for the
//! post-quantum scheme.
//!
//! The post-quantum primitive itself is an external collaborator (a
//! native lattice-based signature library); the protocol layer never
//! depends on which scheme it runs over, so this variant stays generic
//! and a session supplies its scheme instances at construction.

use vstd::prelude::*;

use crate::chain::make_cert_chain;
use crate::handshake::{honest_pair, BaselineClient, BaselineServer};
use crate::signing_scheme::SigningScheme;

verus! {

/// The client role's state for the post-quantum variant.
pub type ClientCtx<S> = BaselineClient<S>;

/// The server role's state for the post-quantum variant.
pub type ServerCtx<S> = BaselineServer<S>;

/// The post-quantum handshake variant.  Its four steps are the generic
/// baseline steps in `handshake`.
pub struct PqcTls<S: SigningScheme> {
    _scheme: core::marker::PhantomData<S>,
}

impl<S: SigningScheme> PqcTls<S> {
    /// Build one session's pair of contexts.  `chain_scheme` runs the
    /// chain builder once; `client_scheme` and `server_scheme` become the
    /// roles' own instances, so no mutable scheme state is shared between
    /// the two roles.
    pub fn new(mut chain_scheme: S, client_scheme: S, server_scheme: S) -> (r: (
        ClientCtx<S>,
        ServerCtx<S>,
    ))
        ensures
            honest_pair(r.0, r.1),
    {
        let (cert_chain, pk_root, sk_root, sk_end) = make_cert_chain(&mut chain_scheme);
        (
            BaselineClient { scheme: client_scheme, pk_root, sk_root },
            BaselineServer { scheme: server_scheme, cert_chain, sk_end },
        )
    }
}

} // verus!
