//! The baseline four-step handshake, written once, generic over the
//! signing capability.
//!
//! Step order within one session is fixed: the client sends its transcript
//! marker; the server delivers its three-certificate chain; the server
//! signs the transcript (marker plus chain encoding) with its end-entity
//! key; the client verifies the root link against its static root key and
//! the transcript signature against the end-entity key embedded in the
//! received chain.

use vstd::prelude::*;

use crate::cert::{
    append_bytes, spec_cert_enc, spec_scert_dec, spec_scert_enc, SignedCertView,
    SignedCertificate,
};
use crate::chain::chain_views;
use crate::encoding::{len_prefixed, spec_frame};
use crate::error::ProtoError;
use crate::names::{spec_transcript_marker, transcript_marker};
use crate::signing_scheme::{SigningScheme, ToBytes};
use crate::stream::{read_bytes_stream, write_bytes_stream, Duplex};

verus! {

/// The client role's state for the baseline handshake: its scheme
/// instance and the statically trusted root key pair.
pub struct BaselineClient<S: SigningScheme> {
    pub scheme: S,
    pub pk_root: Vec<u8>,
    pub sk_root: Vec<u8>,
}

impl<S: SigningScheme> BaselineClient<S> {
    pub open spec fn wf(&self) -> bool {
        S::spec_pk_wf(self.pk_root@)
    }
}

/// The server role's state for the baseline handshake: its scheme
/// instance, its certificate chain and its end-entity signing key.
pub struct BaselineServer<S: SigningScheme> {
    pub scheme: S,
    pub cert_chain: Vec<SignedCertificate>,
    pub sk_end: Vec<u8>,
}

impl<S: SigningScheme> BaselineServer<S> {
    pub open spec fn wf(&self) -> bool {
        &&& self.cert_chain@.len() == 3
        &&& S::spec_sk_wf(self.sk_end@)
    }
}

/// The three framed certificate encodings the server puts on the wire.
pub open spec fn spec_chain_payload(ch: Seq<SignedCertView>) -> Seq<u8> {
    len_prefixed(spec_scert_enc(ch[0])) + len_prefixed(spec_scert_enc(ch[1])) + len_prefixed(
        spec_scert_enc(ch[2]),
    )
}

/// The unframed concatenation of the chain's certificate encodings, as it
/// enters the signed transcript.
pub open spec fn spec_chain_transcript(ch: Seq<SignedCertView>) -> Seq<u8> {
    spec_scert_enc(ch[0]) + spec_scert_enc(ch[1]) + spec_scert_enc(ch[2])
}

/// Step 1: the client opens the session by sending its transcript marker.
pub fn client_transcript<S: SigningScheme>(client_ctx: &mut BaselineClient<S>, stream: &mut Duplex)
    requires
        old(stream).wf(),
    ensures
        final(stream).wf(),
        *final(client_ctx) == *old(client_ctx),
        final(stream).to_server.unread() == old(stream).to_server.unread() + len_prefixed(
            spec_transcript_marker(),
        ),
        final(stream).to_server.written() == old(stream).to_server.written() + 8
            + spec_transcript_marker().len(),
        final(stream).to_client == old(stream).to_client,
{
    let m = transcript_marker();
    write_bytes_stream(&mut stream.to_server, &m);
}

/// Step 2: the server delivers its full certificate chain, each
/// certificate encoding framed.
pub fn server_certificate<S: SigningScheme>(server_ctx: &mut BaselineServer<S>, stream: &mut Duplex)
    requires
        old(stream).wf(),
        old(server_ctx).wf(),
    ensures
        final(stream).wf(),
        *final(server_ctx) == *old(server_ctx),
        final(stream).to_server == old(stream).to_server,
        final(stream).to_client.unread() == old(stream).to_client.unread() + spec_chain_payload(
            chain_views(old(server_ctx).cert_chain@),
        ),
        final(stream).to_client.written() == old(stream).to_client.written() + spec_chain_payload(
            chain_views(old(server_ctx).cert_chain@),
        ).len(),
        forall|i: int|
            0 <= i < 3 ==> spec_scert_enc(
                #[trigger] chain_views(old(server_ctx).cert_chain@)[i],
            ).len() < crate::encoding::pow256(8),
{
    let ghost ch = chain_views(server_ctx.cert_chain@);
    proof {
        assert(ch[0] == server_ctx.cert_chain@[0]@);
        assert(ch[1] == server_ctx.cert_chain@[1]@);
        assert(ch[2] == server_ctx.cert_chain@[2]@);
        crate::encoding::lemma_be_digits_len(spec_scert_enc(ch[0]).len(), 8);
        crate::encoding::lemma_be_digits_len(spec_scert_enc(ch[1]).len(), 8);
        crate::encoding::lemma_be_digits_len(spec_scert_enc(ch[2]).len(), 8);
    }
    let b0 = server_ctx.cert_chain[0].to_bytes();
    write_bytes_stream(&mut stream.to_client, &b0);
    let b1 = server_ctx.cert_chain[1].to_bytes();
    write_bytes_stream(&mut stream.to_client, &b1);
    let b2 = server_ctx.cert_chain[2].to_bytes();
    write_bytes_stream(&mut stream.to_client, &b2);
    proof {
        assert(spec_chain_payload(ch).len() == 24 + spec_scert_enc(ch[0]).len() + spec_scert_enc(
            ch[1],
        ).len() + spec_scert_enc(ch[2]).len());
        assert(stream.to_client.unread() =~= old(stream).to_client.unread() + spec_chain_payload(
            ch,
        ));
        crate::encoding::lemma_pow256_8_value();
        assert(vstd::std_specs::vec::spec_vec_len(&b0) == b0@.len());
        assert(vstd::std_specs::vec::spec_vec_len(&b1) == b1@.len());
        assert(vstd::std_specs::vec::spec_vec_len(&b2) == b2@.len());
        assert(forall|i: int| 0 <= i < 3 ==> spec_scert_enc(#[trigger] ch[i]).len() < crate::encoding::pow256(8));
    }
}

/// Step 3: the server reads the transcript marker, signs the transcript
/// (marker plus the unframed chain encoding) with its end-entity key, and
/// sends the framed signature.  Fails if the marker frame is truncated.
pub fn server_certificate_verify<S: SigningScheme>(
    server_ctx: &mut BaselineServer<S>,
    stream: &mut Duplex,
) -> (r: Result<(), ProtoError>)
    requires
        old(stream).wf(),
        old(server_ctx).wf(),
    ensures
        final(stream).wf(),
        final(server_ctx).cert_chain == old(server_ctx).cert_chain,
        final(server_ctx).sk_end == old(server_ctx).sk_end,
        final(stream).to_server.written() == old(stream).to_server.written(),
        match r {
            Ok(_) => exists|m: Seq<u8>, t: Seq<u8>|
                {
                    &&& spec_frame(old(stream).to_server.unread()) == Some(
                        (m, final(stream).to_server.unread()),
                    )
                    &&& final(stream).to_client.unread() == old(stream).to_client.unread()
                        + len_prefixed(t)
                    &&& S::spec_sig_wf(t)
                    &&& t.len() < crate::encoding::pow256(8)
                    &&& forall|pk: Seq<u8>|
                        S::spec_keypair(old(server_ctx).sk_end@, pk) ==> S::spec_sig_ok(
                            pk,
                            m + spec_chain_transcript(chain_views(old(server_ctx).cert_chain@)),
                            t,
                        )
                },
            Err(e) => {
                &&& spec_frame(old(stream).to_server.unread()) is None
                &&& e == ProtoError::Truncated
                &&& final(stream).to_server == old(stream).to_server
                &&& final(stream).to_client == old(stream).to_client
            },
        },
{
    let ghost ch = chain_views(server_ctx.cert_chain@);
    let mut transcript_bytes = match read_bytes_stream(&mut stream.to_server) {
        Ok(m) => m,
        Err(e) => { return Err(e) },
    };
    let ghost m_read = transcript_bytes@;
    let b0 = server_ctx.cert_chain[0].to_bytes();
    append_bytes(&mut transcript_bytes, &b0);
    let b1 = server_ctx.cert_chain[1].to_bytes();
    append_bytes(&mut transcript_bytes, &b1);
    let b2 = server_ctx.cert_chain[2].to_bytes();
    append_bytes(&mut transcript_bytes, &b2);
    let signature = server_ctx.scheme.sign(&server_ctx.sk_end, &transcript_bytes);
    write_bytes_stream(&mut stream.to_client, &signature);
    proof {
        assert(ch[0] == server_ctx.cert_chain@[0]@);
        assert(ch[1] == server_ctx.cert_chain@[1]@);
        assert(ch[2] == server_ctx.cert_chain@[2]@);
        assert(transcript_bytes@ =~= m_read + spec_chain_transcript(ch));
        crate::encoding::lemma_pow256_8_value();
        assert(vstd::std_specs::vec::spec_vec_len(&signature) == signature@.len());
        assert({
            &&& spec_frame(old(stream).to_server.unread()) == Some(
                (m_read, stream.to_server.unread()),
            )
            &&& stream.to_client.unread() == old(stream).to_client.unread() + len_prefixed(
                signature@,
            )
            &&& S::spec_sig_wf(signature@)
            &&& signature@.len() < crate::encoding::pow256(8)
            &&& forall|pk: Seq<u8>|
                S::spec_keypair(old(server_ctx).sk_end@, pk) ==> S::spec_sig_ok(
                    pk,
                    m_read + spec_chain_transcript(chain_views(old(server_ctx).cert_chain@)),
                    signature@,
                )
        });
    }
    Ok(())
}

/// The outcome of the client-verify step as a function of the client's
/// root key and the unread server-to-client bytes: `None` for a fatal
/// framing or deserialization error, otherwise the verification verdict
/// and the bytes left unread.
///
/// The verdict is `true` exactly when the root certificate's signature
/// verifies under `pk_root` and the transcript signature verifies under
/// the end-entity key embedded in the first received certificate.  A
/// failed root check returns `false` without consuming the signature
/// frame.
pub open spec fn spec_baseline_verify<S: SigningScheme>(pk_root: Seq<u8>, b: Seq<u8>) -> Option<
    (bool, Seq<u8>),
> {
    match spec_frame(b) {
        Some((c0b, b1)) => match spec_scert_dec(c0b) {
            Some(c0) => match spec_frame(b1) {
                Some((c1b, b2)) => match spec_scert_dec(c1b) {
                    Some(c1) => match spec_frame(b2) {
                        Some((c2b, b3)) => match spec_scert_dec(c2b) {
                            Some(c2) => if !S::spec_sig_wf(c2.sig) {
                                None
                            } else if !S::spec_sig_ok(pk_root, spec_cert_enc(c2.cert), c2.sig) {
                                Some((false, b3))
                            } else {
                                match spec_frame(b3) {
                                    Some((t, b4)) => if S::spec_pk_wf(c0.cert.subject_pk)
                                        && S::spec_sig_wf(t) {
                                        Some(
                                            (
                                                S::spec_sig_ok(
                                                    c0.cert.subject_pk,
                                                    spec_transcript_marker() + spec_scert_enc(c0)
                                                        + spec_scert_enc(c1) + spec_scert_enc(c2),
                                                    t,
                                                ),
                                                b4,
                                            ),
                                        )
                                    } else {
                                        None
                                    },
                                    None => None,
                                }
                            },
                            None => None,
                        },
                        None => None,
                    },
                    None => None,
                },
                None => None,
            },
            None => None,
        },
        None => None,
    }
}

/// Step 4: the client reads the three certificates and the transcript
/// signature and verifies the chain's root link and the transcript
/// signature.  The result is exactly `spec_baseline_verify` applied to
/// the unread bytes; a cryptographic mismatch is the `false` verdict,
/// while truncated or undecodable input is a fatal error.
pub fn client_verify<S: SigningScheme>(client_ctx: &mut BaselineClient<S>, stream: &mut Duplex) -> (r:
    Result<bool, ProtoError>)
    requires
        old(stream).wf(),
        old(client_ctx).wf(),
    ensures
        final(stream).wf(),
        final(client_ctx).pk_root == old(client_ctx).pk_root,
        final(client_ctx).sk_root == old(client_ctx).sk_root,
        final(stream).to_server == old(stream).to_server,
        final(stream).to_client.written() == old(stream).to_client.written(),
        match r {
            Ok(v) => spec_baseline_verify::<S>(
                old(client_ctx).pk_root@,
                old(stream).to_client.unread(),
            ) == Some((v, final(stream).to_client.unread())),
            Err(e) => {
                &&& spec_baseline_verify::<S>(
                    old(client_ctx).pk_root@,
                    old(stream).to_client.unread(),
                ) is None
                &&& (e == ProtoError::Truncated || e == ProtoError::DecodeFailed)
            },
        },
{
    let c0b = match read_bytes_stream(&mut stream.to_client) {
        Ok(m) => m,
        Err(e) => { return Err(e) },
    };
    let c0 = match SignedCertificate::decode(&c0b) {
        Ok(c) => c,
        Err(e) => { return Err(e) },
    };
    let c1b = match read_bytes_stream(&mut stream.to_client) {
        Ok(m) => m,
        Err(e) => { return Err(e) },
    };
    let c1 = match SignedCertificate::decode(&c1b) {
        Ok(c) => c,
        Err(e) => { return Err(e) },
    };
    let c2b = match read_bytes_stream(&mut stream.to_client) {
        Ok(m) => m,
        Err(e) => { return Err(e) },
    };
    let c2 = match SignedCertificate::decode(&c2b) {
        Ok(c) => c,
        Err(e) => { return Err(e) },
    };

    if !S::sig_wf(&c2.signature) {
        return Err(ProtoError::DecodeFailed);
    }
    let c2_cert_bytes = c2.certificate.to_bytes();
    let root_ok = client_ctx.scheme.verify(&client_ctx.pk_root, &c2_cert_bytes, &c2.signature);
    if !root_ok {
        return Ok(false);
    }

    let t = match read_bytes_stream(&mut stream.to_client) {
        Ok(m) => m,
        Err(e) => { return Err(e) },
    };
    if !S::pk_wf(&c0.certificate.subject_pk) || !S::sig_wf(&t) {
        return Err(ProtoError::DecodeFailed);
    }

    let mut msg = transcript_marker();
    let e0 = c0.to_bytes();
    append_bytes(&mut msg, &e0);
    let e1 = c1.to_bytes();
    append_bytes(&mut msg, &e1);
    let e2 = c2.to_bytes();
    append_bytes(&mut msg, &e2);
    proof {
        assert(msg@ =~= spec_transcript_marker() + spec_scert_enc(c0@) + spec_scert_enc(c1@)
            + spec_scert_enc(c2@));
    }
    let ok = client_ctx.scheme.verify(&c0.certificate.subject_pk, &msg, &t);
    Ok(ok)
}

/// An honestly provisioned session: both contexts are well-formed and the
/// server's chain, the client's root key and the server's end-entity key
/// came from one run of the chain builder.
pub open spec fn honest_pair<S: SigningScheme>(
    cx: BaselineClient<S>,
    sx: BaselineServer<S>,
) -> bool {
    &&& cx.wf()
    &&& sx.wf()
    &&& crate::chain::spec_chain_ok::<S>(
        chain_views(sx.cert_chain@),
        cx.pk_root@,
        cx.sk_root@,
        sx.sk_end@,
    )
}

/// What an honest server leaves on the wire makes the client-verify
/// decision come out `true` with every byte consumed: the payload is the
/// three chain certificates and a transcript signature made with the
/// end-entity key.
/// Four length-prefixed frames in a row parse back one at a time.
#[verifier::spinoff_prover]
pub(crate) proof fn lemma_four_frames(e0: Seq<u8>, e1: Seq<u8>, e2: Seq<u8>, t: Seq<u8>, u: Seq<u8>)
    requires
        u == len_prefixed(e0) + len_prefixed(e1) + len_prefixed(e2) + len_prefixed(t),
        e0.len() < crate::encoding::pow256(8),
        e1.len() < crate::encoding::pow256(8),
        e2.len() < crate::encoding::pow256(8),
        t.len() < crate::encoding::pow256(8),
    ensures
        spec_frame(u) == Some((e0, len_prefixed(e1) + (len_prefixed(e2) + len_prefixed(t)))),
        spec_frame(len_prefixed(e1) + (len_prefixed(e2) + len_prefixed(t))) == Some(
            (e1, len_prefixed(e2) + len_prefixed(t)),
        ),
        spec_frame(len_prefixed(e2) + len_prefixed(t)) == Some((e2, len_prefixed(t))),
        spec_frame(len_prefixed(t)) == Some((t, Seq::<u8>::empty())),
{
    assert(u =~= len_prefixed(e0) + (len_prefixed(e1) + (len_prefixed(e2) + len_prefixed(t))));
    crate::encoding::lemma_frame_of_prefixed(
        e0,
        len_prefixed(e1) + (len_prefixed(e2) + len_prefixed(t)),
    );
    crate::encoding::lemma_frame_of_prefixed(e1, len_prefixed(e2) + len_prefixed(t));
    crate::encoding::lemma_frame_of_prefixed(e2, len_prefixed(t));
    assert(len_prefixed(t) + Seq::<u8>::empty() =~= len_prefixed(t));
    crate::encoding::lemma_frame_of_prefixed(t, Seq::<u8>::empty());
}

#[verifier::rlimit(100)]
#[verifier::spinoff_prover]
pub proof fn lemma_baseline_verify_accepts<S: SigningScheme>(
    pk_root: Seq<u8>,
    sk_root: Seq<u8>,
    sk_end: Seq<u8>,
    ch: Seq<SignedCertView>,
    t: Seq<u8>,
    u: Seq<u8>,
)
    requires
        crate::chain::spec_chain_ok::<S>(ch, pk_root, sk_root, sk_end),
        u == spec_chain_payload(ch) + len_prefixed(t),
        forall|i: int|
            0 <= i < 3 ==> spec_scert_enc(#[trigger] ch[i]).len() < crate::encoding::pow256(8),
        t.len() < crate::encoding::pow256(8),
        S::spec_sig_wf(t),
        forall|pk: Seq<u8>|
            S::spec_keypair(sk_end, pk) ==> S::spec_sig_ok(
                pk,
                spec_transcript_marker() + spec_chain_transcript(ch),
                t,
            ),
    ensures
        spec_baseline_verify::<S>(pk_root, u) == Some((true, Seq::<u8>::empty())),
{
    let e0 = spec_scert_enc(ch[0]);
    let e1 = spec_scert_enc(ch[1]);
    let e2 = spec_scert_enc(ch[2]);
    assert(u =~= len_prefixed(e0) + len_prefixed(e1) + len_prefixed(e2) + len_prefixed(t));
    lemma_four_frames(e0, e1, e2, t, u);
    crate::cert::lemma_scert_bounded_from_enc(ch[0]);
    crate::cert::lemma_scert_bounded_from_enc(ch[1]);
    crate::cert::lemma_scert_bounded_from_enc(ch[2]);
    crate::cert::lemma_scert_round_trip(ch[0]);
    crate::cert::lemma_scert_round_trip(ch[1]);
    crate::cert::lemma_scert_round_trip(ch[2]);
    assert(S::spec_sig_ok(pk_root, spec_cert_enc(ch[2].cert), ch[2].sig));
    assert(S::spec_sig_ok(
        ch[0].cert.subject_pk,
        spec_transcript_marker() + spec_chain_transcript(ch),
        t,
    ));
    assert(spec_transcript_marker() + e0 + e1 + e2 =~= spec_transcript_marker()
        + spec_chain_transcript(ch));
    assert(spec_baseline_verify::<S>(pk_root, u) == Some((true, Seq::<u8>::empty())));
}

/// Baseline handshake success: for every signing capability and every
/// honestly provisioned pair of contexts, running the four steps in order
/// over a fresh duplex pipe ends with the client accepting.
#[verifier::rlimit(100)]
#[verifier::spinoff_prover]
pub fn run_baseline_handshake<S: SigningScheme>(
    cx: &mut BaselineClient<S>,
    sx: &mut BaselineServer<S>,
) -> (r: Result<bool, ProtoError>)
    requires
        honest_pair(*old(cx), *old(sx)),
    ensures
        r == Ok::<bool, ProtoError>(true),
{
    let ghost ch = chain_views(sx.cert_chain@);
    let mut stream = Duplex::new();
    client_transcript(cx, &mut stream);
    server_certificate(sx, &mut stream);
    let ghost pre_server = stream.to_server.unread();
    let ghost pre_client = stream.to_client.unread();
    proof {
        crate::encoding::lemma_pow256_8_value();
        assert(pre_server =~= len_prefixed(spec_transcript_marker()));
        assert(pre_client =~= spec_chain_payload(ch));
        assert(len_prefixed(spec_transcript_marker()) + Seq::<u8>::empty() =~= len_prefixed(
            spec_transcript_marker(),
        ));
        crate::encoding::lemma_frame_of_prefixed(spec_transcript_marker(), Seq::<u8>::empty());
    }
    match server_certificate_verify(sx, &mut stream) {
        Ok(_) => {},
        Err(e) => {
            proof {
                assert(false);
            }
            return Err(e);
        },
    }
    let ghost (m, t) = choose|m: Seq<u8>, t: Seq<u8>|
        {
            &&& spec_frame(pre_server) == Some((m, stream.to_server.unread()))
            &&& stream.to_client.unread() == pre_client + len_prefixed(t)
            &&& S::spec_sig_wf(t)
            &&& t.len() < crate::encoding::pow256(8)
            &&& forall|pk: Seq<u8>|
                S::spec_keypair(sx.sk_end@, pk) ==> S::spec_sig_ok(
                    pk,
                    m + spec_chain_transcript(ch),
                    t,
                )
        };
    proof {
        assert(spec_frame(pre_server) == Some(
            (spec_transcript_marker(), Seq::<u8>::empty()),
        ));
        assert(m == spec_transcript_marker());
        assert(stream.to_client.unread() =~= spec_chain_payload(ch) + len_prefixed(t));
        lemma_baseline_verify_accepts::<S>(
            cx.pk_root@,
            cx.sk_root@,
            sx.sk_end@,
            ch,
            t,
            stream.to_client.unread(),
        );
    }
    let r = client_verify(cx, &mut stream);
    match r {
        Ok(v) => {
            if v {
                Ok(true)
            } else {
                proof {
                    assert(false);
                }
                Ok(false)
            }
        },
        Err(e) => {
            proof {
                assert(false);
            }
            Err(e)
        },
    }
}

} // verus!
