//! The classical signing capability: Ed25519, provided by the
//! `ed25519_dalek` crate behind trusted wrappers.
//!
//! Keys and signatures travel as their byte serializations: a 32-byte
//! signing key, the 32-byte verifying key derived from it, and a 64-byte
//! signature.  Ed25519 signing is deterministic and verifying-key
//! derivation is a function of the signing key alone, so both results are
//! named by uninterpreted spec functions.

use vstd::prelude::*;

use ed25519_dalek::Signer;
use ed25519_dalek::Verifier;

use crate::signing_scheme::SigningScheme;

verus! {

/// The bytes of the Ed25519 verifying key derived from the signing key
/// bytes `sk`.
pub uninterp spec fn ed25519_pk_of(sk: Seq<u8>) -> Seq<u8>;

/// Ed25519 verification accepts `t` as a signature on `m` under the
/// verifying-key bytes `pk`.
pub uninterp spec fn ed25519_sig_ok(pk: Seq<u8>, m: Seq<u8>, t: Seq<u8>) -> bool;

/// Relies on ed25519_dalek::SigningKey::generate and
/// SigningKey::verifying_key: a fresh 32-byte signing key and the 32-byte
/// verifying key derived from it.
#[verifier::external_body]
fn ed_keygen() -> (r: (Vec<u8>, Vec<u8>))
    ensures
        r.0@.len() == 32,
        r.1@.len() == 32,
        r.1@ == ed25519_pk_of(r.0@),
{
    let sk = ed25519_dalek::SigningKey::generate(&mut rand::rngs::OsRng);
    let pk = sk.verifying_key();
    (sk.to_bytes().to_vec(), pk.to_bytes().to_vec())
}

/// Relies on ed25519_dalek::SigningKey::from_bytes and Signer::sign:
/// deterministic Ed25519 signing; the 64-byte signature verifies under
/// the verifying key derived from `sk`.
#[verifier::external_body]
fn ed_sign(sk: &Vec<u8>, m: &Vec<u8>) -> (t: Vec<u8>)
    requires
        sk@.len() == 32,
    ensures
        t@.len() == 64,
        ed25519_sig_ok(ed25519_pk_of(sk@), m@, t@),
{
    let key = ed25519_dalek::SigningKey::from_bytes(&sk[..].try_into().unwrap());
    key.sign(m).to_bytes().to_vec()
}

/// Relies on ed25519_dalek::VerifyingKey::from_bytes, Signature::from_bytes
/// and Verifier::verify: decides Ed25519 signature validity; 32-byte
/// strings that are not valid verifying keys accept nothing.
#[verifier::external_body]
fn ed_verify(pk: &Vec<u8>, m: &Vec<u8>, t: &Vec<u8>) -> (b: bool)
    requires
        pk@.len() == 32,
        t@.len() == 64,
    ensures
        b == ed25519_sig_ok(pk@, m@, t@),
{
    let sig = ed25519_dalek::Signature::from_bytes(&t[..].try_into().unwrap());
    match ed25519_dalek::VerifyingKey::from_bytes(&pk[..].try_into().unwrap()) {
        Ok(key) => key.verify(m, &sig).is_ok(),
        Err(_) => false,
    }
}

/// The classical Ed25519 signing capability.
pub struct Eddsa;

impl SigningScheme for Eddsa {
    open spec fn spec_keypair(sk: Seq<u8>, pk: Seq<u8>) -> bool {
        &&& sk.len() == 32
        &&& pk == ed25519_pk_of(sk)
    }

    open spec fn spec_sig_ok(pk: Seq<u8>, m: Seq<u8>, t: Seq<u8>) -> bool {
        ed25519_sig_ok(pk, m, t)
    }

    open spec fn spec_sk_wf(sk: Seq<u8>) -> bool {
        sk.len() == 32
    }

    open spec fn spec_pk_wf(pk: Seq<u8>) -> bool {
        pk.len() == 32
    }

    open spec fn spec_sig_wf(t: Seq<u8>) -> bool {
        t.len() == 64
    }

    fn keygen(&mut self) -> (r: (Vec<u8>, Vec<u8>)) {
        ed_keygen()
    }

    fn sign(&mut self, sk: &Vec<u8>, m: &Vec<u8>) -> (t: Vec<u8>) {
        ed_sign(sk, m)
    }

    fn verify(&mut self, pk: &Vec<u8>, m: &Vec<u8>, t: &Vec<u8>) -> (b: bool) {
        ed_verify(pk, m, t)
    }

    fn pk_wf(pk: &Vec<u8>) -> (b: bool) {
        pk.len() == 32
    }

    fn sig_wf(t: &Vec<u8>) -> (b: bool) {
        t.len() == 64
    }
}

} // verus!
