//! The certificate data model and its canonical wire encoding.
//!
//! A `Certificate` is an attestation triple: issuer name, subject name and
//! the subject's public key.  Its canonical encoding concatenates the
//! three fields, each behind an 8-byte big-endian length prefix.  A
//! `SignedCertificate` pairs a certificate with a signature over the
//! certificate's own encoding, and encodes as the length-prefixed
//! certificate encoding followed by the length-prefixed signature.
//! Decoding is the exact inverse and rejects truncated or trailing bytes.

use vstd::prelude::*;

use crate::encoding::{
    be_digits, be_val, len_prefixed, lemma_frame_of_prefixed, pow256, spec_frame,
    u64_from_be_bytes, u64_to_be_bytes,
};
use crate::error::ProtoError;
use crate::signing_scheme::{SigningScheme, ToBytes};

verus! {

/// Append `data` to `out`.
pub fn append_bytes(out: &mut Vec<u8>, data: &Vec<u8>)
    ensures
        final(out)@ == old(out)@ + data@,
{
    let len = data.len();
    let mut i: usize = 0;
    while i < len
        invariant
            i <= len,
            len == data@.len(),
            out@ == old(out)@ + data@.take(i as int),
        decreases len - i,
    {
        let b = data[i];
        proof {
            assert(old(out)@ + data@.take(i + 1 as int) =~= (old(out)@ + data@.take(
                i as int,
            )).push(data@[i as int]));
        }
        out.push(b);
        i += 1;
    }
    proof {
        assert(data@.take(len as int) =~= data@);
    }
}

/// Append the 8-byte big-endian length of `data`, then `data` itself.
pub fn append_prefixed(out: &mut Vec<u8>, data: &Vec<u8>)
    ensures
        final(out)@ == old(out)@ + len_prefixed(data@),
{
    let lenb = u64_to_be_bytes(data.len() as u64);
    append_bytes(out, &lenb);
    append_bytes(out, data);
    proof {
        assert(out@ =~= old(out)@ + len_prefixed(data@));
    }
}

/// Read one length-prefixed field of `value` starting at `start`,
/// returning the field and the offset just past it.  Fails if fewer bytes
/// remain than the 8-byte prefix or the declared length require.
pub fn read_bytes(value: &Vec<u8>, start: usize) -> (r: Result<(Vec<u8>, usize), ProtoError>)
    requires
        start <= value@.len(),
    ensures
        match r {
            Ok(p) => {
                &&& spec_frame(value@.skip(start as int)) == Some(
                    (p.0@, value@.skip(p.1 as int)),
                )
                &&& start + 8 <= p.1 <= value@.len()
            },
            Err(e) => {
                &&& spec_frame(value@.skip(start as int)) is None
                &&& e == ProtoError::Truncated
            },
        },
{
    let len = value.len();
    let ghost b = value@.skip(start as int);
    if len - start < 8 {
        return Err(ProtoError::Truncated);
    }
    let n = u64_from_be_bytes(value, start);
    proof {
        assert(b.take(8) =~= value@.subrange(start as int, start as int + 8));
    }
    let rem = len - start - 8;
    if n > rem as u64 {
        proof {
            assert(b.len() - 8 < be_val(b.take(8)));
        }
        return Err(ProtoError::Truncated);
    }
    let n = n as usize;
    let mut field: Vec<u8> = Vec::new();
    let mut i: usize = 0;
    while i < n
        invariant
            i <= n,
            start + 8 + n <= len,
            len == value@.len(),
            field@ == value@.subrange(start + 8 as int, start + 8 + i as int),
        decreases n - i,
    {
        let b = value[start + 8 + i];
        proof {
            assert(value@.subrange(start + 8 as int, start + 8 + (i + 1) as int)
                =~= value@.subrange(start + 8 as int, start + 8 + i as int).push(
                value@[start + 8 + i as int],
            ));
        }
        field.push(b);
        i += 1;
    }
    let next = start + 8 + n;
    proof {
        assert(b.take(8) =~= value@.subrange(start as int, start as int + 8));
        assert(be_val(b.take(8)) == n as nat);
        assert(b.subrange(8, 8 + n as int) =~= value@.subrange(
            start + 8 as int,
            start + 8 + n as int,
        ));
        assert(b.skip(8 + n as int) =~= value@.skip(next as int));
    }
    Ok((field, next))
}

/// A single attestation: "issuer asserts that subject owns this public
/// key".  Names are UTF-8 byte strings.
#[derive(Debug, PartialEq, Eq)]
pub struct Certificate {
    pub issuer_name: Vec<u8>,
    pub subject_name: Vec<u8>,
    pub subject_pk: Vec<u8>,
}

/// The mathematical content of a `Certificate`.
pub ghost struct CertView {
    pub issuer_name: Seq<u8>,
    pub subject_name: Seq<u8>,
    pub subject_pk: Seq<u8>,
}

impl View for Certificate {
    type V = CertView;

    open spec fn view(&self) -> CertView {
        (CertView {
            issuer_name: self.issuer_name@,
            subject_name: self.subject_name@,
            subject_pk: self.subject_pk@,
        })
    }
}

/// The canonical encoding of a certificate: each field behind an 8-byte
/// big-endian length prefix.
pub open spec fn spec_cert_enc(c: CertView) -> Seq<u8> {
    len_prefixed(c.issuer_name) + len_prefixed(c.subject_name) + len_prefixed(c.subject_pk)
}

/// The exact inverse of `spec_cert_enc`: three length-prefixed fields and
/// nothing after them.
pub open spec fn spec_cert_dec(b: Seq<u8>) -> Option<CertView> {
    match spec_frame(b) {
        Some((issuer, r1)) => match spec_frame(r1) {
            Some((subject, r2)) => match spec_frame(r2) {
                Some((pk, r3)) => if r3.len() == 0 {
                    Some(
                        (CertView { issuer_name: issuer, subject_name: subject, subject_pk: pk }),
                    )
                } else {
                    None
                },
                None => None,
            },
            None => None,
        },
        None => None,
    }
}

/// Every field of `c` fits behind an 8-byte length prefix.
pub open spec fn cert_wire_bounded(c: CertView) -> bool {
    &&& c.issuer_name.len() < pow256(8)
    &&& c.subject_name.len() < pow256(8)
    &&& c.subject_pk.len() < pow256(8)
}

/// Decoding the canonical encoding of a certificate yields the
/// certificate back.
pub proof fn lemma_cert_round_trip(c: CertView)
    requires
        cert_wire_bounded(c),
    ensures
        spec_cert_dec(spec_cert_enc(c)) == Some(c),
{
    let b = spec_cert_enc(c);
    let tail2 = len_prefixed(c.subject_name) + len_prefixed(c.subject_pk);
    assert(b =~= len_prefixed(c.issuer_name) + tail2);
    lemma_frame_of_prefixed(c.issuer_name, tail2);
    let tail3 = len_prefixed(c.subject_pk);
    assert(tail2 =~= len_prefixed(c.subject_name) + tail3);
    lemma_frame_of_prefixed(c.subject_name, tail3);
    assert(tail3 =~= len_prefixed(c.subject_pk) + Seq::<u8>::empty());
    lemma_frame_of_prefixed(c.subject_pk, Seq::<u8>::empty());
}

impl ToBytes for Certificate {
    open spec fn spec_bytes(&self) -> Seq<u8> {
        spec_cert_enc(self@)
    }

    fn to_bytes(&self) -> (r: Vec<u8>)
        ensures
            r@ == self.spec_bytes(),
    {
        let mut res: Vec<u8> = Vec::new();
        append_prefixed(&mut res, &self.issuer_name);
        append_prefixed(&mut res, &self.subject_name);
        append_prefixed(&mut res, &self.subject_pk);
        proof {
            assert(res@ =~= spec_cert_enc(self@));
        }
        res
    }
}

impl Certificate {
    /// Sign this certificate's canonical encoding with `sk`, producing the
    /// paired `SignedCertificate`.  The signature verifies under the
    /// verifying key paired with `sk`.
    pub fn sign<S: SigningScheme>(self, scheme: &mut S, sk: &Vec<u8>) -> (r: SignedCertificate)
        requires
            S::spec_sk_wf(sk@),
        ensures
            r@.cert == self@,
            S::spec_sig_wf(r@.sig),
            forall|pk: Seq<u8>|
                S::spec_keypair(sk@, pk) ==> S::spec_sig_ok(pk, spec_cert_enc(self@), r@.sig),
    {
        let m = self.to_bytes();
        let signature = scheme.sign(sk, &m);
        SignedCertificate { certificate: self, signature }
    }

    /// Decode a certificate from its canonical encoding, rejecting
    /// truncated input and trailing bytes.
    pub fn decode(bytes: &Vec<u8>) -> (r: Result<Certificate, ProtoError>)
        ensures
            match r {
                Ok(c) => spec_cert_dec(bytes@) == Some(c@),
                Err(e) => {
                    &&& spec_cert_dec(bytes@) is None
                    &&& e == ProtoError::DecodeFailed
                },
            },
    {
        proof {
            assert(bytes@.skip(0) =~= bytes@);
        }
        let (issuer_name, off1) = match read_bytes(bytes, 0) {
            Ok(p) => p,
            Err(_) => { return Err(ProtoError::DecodeFailed) },
        };
        let (subject_name, off2) = match read_bytes(bytes, off1) {
            Ok(p) => p,
            Err(_) => { return Err(ProtoError::DecodeFailed) },
        };
        let (subject_pk, off3) = match read_bytes(bytes, off2) {
            Ok(p) => p,
            Err(_) => { return Err(ProtoError::DecodeFailed) },
        };
        if off3 != bytes.len() {
            return Err(ProtoError::DecodeFailed);
        }
        proof {
            assert(bytes@.skip(off3 as int).len() == 0);
        }
        Ok(Certificate { issuer_name, subject_name, subject_pk })
    }
}

/// A certificate together with a signature over its canonical encoding,
/// issued by the private key of its claimed issuer.
#[derive(Debug, PartialEq, Eq)]
pub struct SignedCertificate {
    pub certificate: Certificate,
    pub signature: Vec<u8>,
}

/// The mathematical content of a `SignedCertificate`.
pub ghost struct SignedCertView {
    pub cert: CertView,
    pub sig: Seq<u8>,
}

impl View for SignedCertificate {
    type V = SignedCertView;

    open spec fn view(&self) -> SignedCertView {
        (SignedCertView { cert: self.certificate@, sig: self.signature@ })
    }
}

/// The canonical encoding of a signed certificate: the length-prefixed
/// certificate encoding, then the length-prefixed signature.
pub open spec fn spec_scert_enc(s: SignedCertView) -> Seq<u8> {
    len_prefixed(spec_cert_enc(s.cert)) + len_prefixed(s.sig)
}

/// The exact inverse of `spec_scert_enc`.
pub open spec fn spec_scert_dec(b: Seq<u8>) -> Option<SignedCertView> {
    match spec_frame(b) {
        Some((cb, r1)) => match spec_frame(r1) {
            Some((sig, r2)) => if r2.len() == 0 {
                match spec_cert_dec(cb) {
                    Some(c) => Some((SignedCertView { cert: c, sig })),
                    None => None,
                }
            } else {
                None
            },
            None => None,
        },
        None => None,
    }
}

/// The certificate encoding and the signature both fit behind an 8-byte
/// length prefix.
pub open spec fn scert_wire_bounded(s: SignedCertView) -> bool {
    &&& cert_wire_bounded(s.cert)
    &&& spec_cert_enc(s.cert).len() < pow256(8)
    &&& s.sig.len() < pow256(8)
}

/// Decoding the canonical encoding of a signed certificate yields the
/// signed certificate back.
pub proof fn lemma_scert_round_trip(s: SignedCertView)
    requires
        scert_wire_bounded(s),
    ensures
        spec_scert_dec(spec_scert_enc(s)) == Some(s),
{
    let cb = spec_cert_enc(s.cert);
    let b = spec_scert_enc(s);
    let tail = len_prefixed(s.sig);
    assert(b =~= len_prefixed(cb) + tail);
    lemma_frame_of_prefixed(cb, tail);
    assert(tail =~= len_prefixed(s.sig) + Seq::<u8>::empty());
    lemma_frame_of_prefixed(s.sig, Seq::<u8>::empty());
    lemma_cert_round_trip(s.cert);
}

/// If a byte string decodes as a signed certificate, it is that signed
/// certificate's canonical encoding: decoding is injective on its domain.
pub proof fn lemma_scert_dec_enc(b: Seq<u8>)
    requires
        spec_scert_dec(b) is Some,
    ensures
        spec_scert_enc(spec_scert_dec(b)->Some_0) == b,
{
    let s = spec_scert_dec(b)->Some_0;
    let (cb, r1) = spec_frame(b)->Some_0;
    let (sig, r2) = spec_frame(r1)->Some_0;
    lemma_cert_dec_enc(cb);
    lemma_frame_unfold(b);
    lemma_frame_unfold(r1);
    assert(spec_scert_enc(s) =~= b);
}

/// If a byte string decodes as a certificate, it is that certificate's
/// canonical encoding.
pub proof fn lemma_cert_dec_enc(b: Seq<u8>)
    requires
        spec_cert_dec(b) is Some,
    ensures
        spec_cert_enc(spec_cert_dec(b)->Some_0) == b,
{
    let (issuer, r1) = spec_frame(b)->Some_0;
    let (subject, r2) = spec_frame(r1)->Some_0;
    let (pk, r3) = spec_frame(r2)->Some_0;
    lemma_frame_unfold(b);
    lemma_frame_unfold(r1);
    lemma_frame_unfold(r2);
    assert(r3 =~= Seq::<u8>::empty());
    assert(spec_cert_enc(spec_cert_dec(b)->Some_0) =~= b);
}

/// A signed certificate whose whole encoding fits behind an 8-byte length
/// prefix has every field wire-bounded too.
pub proof fn lemma_scert_bounded_from_enc(s: SignedCertView)
    requires
        spec_scert_enc(s).len() < pow256(8),
    ensures
        scert_wire_bounded(s),
{
    crate::encoding::lemma_be_digits_len(spec_cert_enc(s.cert).len(), 8);
    crate::encoding::lemma_be_digits_len(s.sig.len(), 8);
    crate::encoding::lemma_be_digits_len(s.cert.issuer_name.len(), 8);
    crate::encoding::lemma_be_digits_len(s.cert.subject_name.len(), 8);
    crate::encoding::lemma_be_digits_len(s.cert.subject_pk.len(), 8);
}

/// A successful frame parse splits its input as the payload's length
/// prefix, the payload, and the rest.
pub proof fn lemma_frame_unfold(b: Seq<u8>)
    requires
        spec_frame(b) is Some,
    ensures
        b == len_prefixed(spec_frame(b)->Some_0.0) + spec_frame(b)->Some_0.1,
        spec_frame(b)->Some_0.0.len() < pow256(8),
{
    let (m, rest) = spec_frame(b)->Some_0;
    let n = crate::encoding::be_val(b.take(8));
    crate::encoding::lemma_be_val_bound(b.take(8));
    assert(m =~= b.subrange(8, 8 + n as int));
    assert(m.len() == n);
    crate::encoding::lemma_be_digits_of_val(b.take(8));
    assert(be_digits(m.len(), 8) =~= b.take(8));
    assert(len_prefixed(m) + rest =~= b);
}

impl SignedCertificate {
    /// Decode a signed certificate from its canonical encoding, rejecting
    /// truncated input and trailing bytes.
    pub fn decode(bytes: &Vec<u8>) -> (r: Result<SignedCertificate, ProtoError>)
        ensures
            match r {
                Ok(s) => spec_scert_dec(bytes@) == Some(s@),
                Err(e) => {
                    &&& spec_scert_dec(bytes@) is None
                    &&& e == ProtoError::DecodeFailed
                },
            },
    {
        proof {
            assert(bytes@.skip(0) =~= bytes@);
        }
        let (cert_bytes, off1) = match read_bytes(bytes, 0) {
            Ok(p) => p,
            Err(_) => { return Err(ProtoError::DecodeFailed) },
        };
        let (signature, off2) = match read_bytes(bytes, off1) {
            Ok(p) => p,
            Err(_) => { return Err(ProtoError::DecodeFailed) },
        };
        if off2 != bytes.len() {
            return Err(ProtoError::DecodeFailed);
        }
        proof {
            assert(bytes@.skip(off2 as int).len() == 0);
        }
        let certificate = match Certificate::decode(&cert_bytes) {
            Ok(c) => c,
            Err(_) => { return Err(ProtoError::DecodeFailed) },
        };
        Ok(SignedCertificate { certificate, signature })
    }
}

impl ToBytes for SignedCertificate {
    open spec fn spec_bytes(&self) -> Seq<u8> {
        spec_scert_enc(self@)
    }

    fn to_bytes(&self) -> (r: Vec<u8>)
        ensures
            r@ == self.spec_bytes(),
    {
        let cert_bytes = self.certificate.to_bytes();
        let mut res: Vec<u8> = Vec::new();
        append_prefixed(&mut res, &cert_bytes);
        append_prefixed(&mut res, &self.signature);
        proof {
            assert(res@ =~= spec_scert_enc(self@));
        }
        res
    }
}

} // verus!
