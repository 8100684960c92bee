//! The certificate chain builder: three fresh key pairs and a three-link
//! chain of trust, end-entity first, self-signed root last.

use vstd::prelude::*;

use crate::cert::{spec_cert_enc, Certificate, SignedCertView, SignedCertificate};
use crate::names::{
    name_end_entity, name_intermediate_ca, name_root_ca, name_self_signed,
    spec_name_end_entity, spec_name_intermediate_ca, spec_name_root_ca, spec_name_self_signed,
};
use crate::signing_scheme::SigningScheme;

verus! {

/// The views of a sequence of signed certificates.
pub open spec fn chain_views(v: Seq<SignedCertificate>) -> Seq<SignedCertView> {
    v.map_values(|c: SignedCertificate| c@)
}

/// Copy a byte vector.
pub fn copy_bytes(v: &Vec<u8>) -> (r: Vec<u8>)
    ensures
        r@ == v@,
{
    let mut r: Vec<u8> = Vec::new();
    crate::cert::append_bytes(&mut r, v);
    proof {
        assert(r@ =~= v@);
    }
    r
}

/// What `make_cert_chain` establishes about a chain `ch` and the returned
/// root verifying key `pk_root`, root signing key `sk_root` and end-entity
/// signing key `sk_end`:
///
/// - the chain has exactly three links, index 0 the end-entity certificate
///   issued by the intermediate, index 1 the intermediate certificate
///   issued by the root, index 2 the self-signed root certificate;
/// - the root certificate carries `pk_root` and its signature verifies
///   under `pk_root` itself;
/// - the intermediate certificate's signature verifies under the key
///   embedded in the root certificate, and the end-entity certificate's
///   signature verifies under the key embedded in the intermediate
///   certificate — trust in those links still rests on trusting the root;
/// - `sk_end` is the signing key paired with the end-entity certificate's
///   embedded key, and all keys and signatures are well-formed for `S`.
pub open spec fn spec_chain_ok<S: SigningScheme>(
    ch: Seq<SignedCertView>,
    pk_root: Seq<u8>,
    sk_root: Seq<u8>,
    sk_end: Seq<u8>,
) -> bool {
    &&& ch.len() == 3
    &&& ch[0].cert.issuer_name == spec_name_intermediate_ca()
    &&& ch[0].cert.subject_name == spec_name_end_entity()
    &&& ch[1].cert.issuer_name == spec_name_root_ca()
    &&& ch[1].cert.subject_name == spec_name_intermediate_ca()
    &&& ch[2].cert.issuer_name == spec_name_self_signed()
    &&& ch[2].cert.subject_name == spec_name_root_ca()
    &&& ch[2].cert.subject_pk == pk_root
    &&& S::spec_keypair(sk_root, pk_root)
    &&& S::spec_keypair(sk_end, ch[0].cert.subject_pk)
    &&& S::spec_sk_wf(sk_root)
    &&& S::spec_sk_wf(sk_end)
    &&& S::spec_pk_wf(pk_root)
    &&& S::spec_pk_wf(ch[0].cert.subject_pk)
    &&& S::spec_pk_wf(ch[1].cert.subject_pk)
    &&& S::spec_sig_wf(ch[0].sig)
    &&& S::spec_sig_wf(ch[1].sig)
    &&& S::spec_sig_wf(ch[2].sig)
    &&& S::spec_sig_ok(ch[1].cert.subject_pk, spec_cert_enc(ch[0].cert), ch[0].sig)
    &&& S::spec_sig_ok(pk_root, spec_cert_enc(ch[1].cert), ch[1].sig)
    &&& S::spec_sig_ok(pk_root, spec_cert_enc(ch[2].cert), ch[2].sig)
}

/// Build a three-link chain of trust with one scheme instance: three fresh
/// key pairs (root, intermediate, end-entity, in that order), then the
/// end-entity certificate signed by the intermediate key, the intermediate
/// certificate signed by the root key, and the root certificate
/// self-signed.  Returns the chain (end-entity first, root last), the root
/// verifying key, the root signing key and the end-entity signing key.
pub fn make_cert_chain<S: SigningScheme>(scheme: &mut S) -> (r: (
    Vec<SignedCertificate>,
    Vec<u8>,
    Vec<u8>,
    Vec<u8>,
))
    ensures
        spec_chain_ok::<S>(chain_views(r.0@), r.1@, r.2@, r.3@),
{
    let (sk_root, pk_root) = scheme.keygen();
    let (sk_int, pk_int) = scheme.keygen();
    let (sk_end, pk_end) = scheme.keygen();

    let ghost pk_int_v = pk_int@;

    let mut certs: Vec<SignedCertificate> = Vec::new();

    let end_cert = Certificate {
        issuer_name: name_intermediate_ca(),
        subject_name: name_end_entity(),
        subject_pk: pk_end,
    };
    certs.push(end_cert.sign(scheme, &sk_int));

    let int_cert = Certificate {
        issuer_name: name_root_ca(),
        subject_name: name_intermediate_ca(),
        subject_pk: pk_int,
    };
    certs.push(int_cert.sign(scheme, &sk_root));

    let root_cert = Certificate {
        issuer_name: name_self_signed(),
        subject_name: name_root_ca(),
        subject_pk: copy_bytes(&pk_root),
    };
    certs.push(root_cert.sign(scheme, &sk_root));

    proof {
        let ch = chain_views(certs@);
        assert(ch.len() == 3);
        assert(ch[0] == certs@[0]@);
        assert(ch[1] == certs@[1]@);
        assert(ch[2] == certs@[2]@);
        assert(S::spec_sig_ok(pk_int_v, spec_cert_enc(ch[0].cert), ch[0].sig));
        assert(S::spec_sig_ok(pk_root@, spec_cert_enc(ch[1].cert), ch[1].sig));
        assert(S::spec_sig_ok(pk_root@, spec_cert_enc(ch[2].cert), ch[2].sig));
    }
    (certs, pk_root, sk_root, sk_end)
}

} // verus!
