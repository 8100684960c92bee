//! The signing capability: the abstract interface through which the
//! handshake consumes a concrete signature algorithm.

use vstd::prelude::*;

verus! {

/// A value with a canonical byte serialization.
pub trait ToBytes {
    /// The canonical encoding of this value.
    spec fn spec_bytes(&self) -> Seq<u8>;

    fn to_bytes(&self) -> (r: Vec<u8>)
        ensures
            r@ == self.spec_bytes(),
    ;
}

/// A signature scheme: key generation, signing and verification over flat
/// byte buffers.
///
/// Keys and signatures travel as their serialized bytes; which byte strings
/// are acceptable keys or signatures is scheme-specific and captured by the
/// well-formedness predicates.  A scheme value may carry mutable state (for
/// example a deterministic randomness generator), so key generation and
/// signing act on `&mut self`.
///
/// `spec_keypair(sk, pk)` says that `pk` is the verifying key paired with
/// the signing key `sk`; `spec_sig_ok(pk, m, t)` says that `t` is a
/// signature on message `m` accepted under `pk`.  Verification decides
/// `spec_sig_ok` exactly, and signing with `sk` produces a signature
/// accepted under the paired verifying key.
pub trait SigningScheme: Sized {
    /// `pk` is the verifying key paired with the signing key `sk`.
    spec fn spec_keypair(sk: Seq<u8>, pk: Seq<u8>) -> bool;

    /// `t` is a signature on `m` accepted under the verifying key `pk`.
    spec fn spec_sig_ok(pk: Seq<u8>, m: Seq<u8>, t: Seq<u8>) -> bool;

    /// `sk` is a byte string the scheme accepts as a signing key.
    spec fn spec_sk_wf(sk: Seq<u8>) -> bool;

    /// `pk` is a byte string the scheme accepts as a verifying key.
    spec fn spec_pk_wf(pk: Seq<u8>) -> bool;

    /// `t` is a byte string the scheme accepts as a signature.
    spec fn spec_sig_wf(t: Seq<u8>) -> bool;

    /// Generate a fresh key pair: (signing key, verifying key).
    fn keygen(&mut self) -> (r: (Vec<u8>, Vec<u8>))
        ensures
            Self::spec_keypair(r.0@, r.1@),
            Self::spec_sk_wf(r.0@),
            Self::spec_pk_wf(r.1@),
    ;

    /// Sign `m` with `sk`; the signature is accepted under the verifying
    /// key paired with `sk`.
    fn sign(&mut self, sk: &Vec<u8>, m: &Vec<u8>) -> (t: Vec<u8>)
        requires
            Self::spec_sk_wf(sk@),
        ensures
            Self::spec_sig_wf(t@),
            forall|pk: Seq<u8>|
                Self::spec_keypair(sk@, pk) ==> Self::spec_sig_ok(pk, m@, t@),
    ;

    /// Decide whether `t` is a signature on `m` accepted under `pk`.
    /// Mismatched content yields `false`, never an error.
    fn verify(&mut self, pk: &Vec<u8>, m: &Vec<u8>, t: &Vec<u8>) -> (b: bool)
        requires
            Self::spec_pk_wf(pk@),
            Self::spec_sig_wf(t@),
        ensures
            b == Self::spec_sig_ok(pk@, m@, t@),
    ;

    /// Decide whether `pk` is a byte string this scheme accepts as a
    /// verifying key.
    fn pk_wf(pk: &Vec<u8>) -> (b: bool)
        ensures
            b == Self::spec_pk_wf(pk@),
    ;

    /// Decide whether `t` is a byte string this scheme accepts as a
    /// signature.
    fn sig_wf(t: &Vec<u8>) -> (b: bool)
        ensures
            b == Self::spec_sig_wf(t@),
    ;
}

} // verus!
