//! The client-side caching handshake variant: the client pins the
//! server's end-entity key after one verified chain delivery, and on
//! repeat connections the server sends no certificate at all — only the
//! transcript signature, which the client checks against the pinned key.
//!
//! Unlike the identifier-keyed variant, the status message here is the
//! bare word `"first"` or `"repeat"`, and the cache is the single pinned
//! key inside the client context.

use vstd::prelude::*;

use crate::cert::{append_bytes, spec_cert_enc, spec_scert_enc, SignedCertificate};
use crate::chain::{chain_views, copy_bytes, make_cert_chain, spec_chain_ok};
use crate::encoding::{len_prefixed, pow256, spec_frame};
use crate::error::ProtoError;
use crate::handshake::{spec_chain_payload, spec_chain_transcript};
use crate::names::{spec_transcript_marker, transcript_marker};
use crate::pqccache::spec_recv3;
use crate::signing_scheme::{SigningScheme, ToBytes};
use crate::stream::{read_bytes_stream, write_bytes_stream, Duplex};

verus! {

/// The bytes of the bare status word `"first"`.
pub open spec fn spec_word_first() -> Seq<u8> {
    seq![102u8, 105u8, 114u8, 115u8, 116u8]
}

fn word_first() -> (r: Vec<u8>)
    ensures
        r@ == spec_word_first(),
{
    let r = vec![102u8, 105u8, 114u8, 115u8, 116u8];
    proof {
        assert(r@ =~= spec_word_first());
    }
    r
}

/// The bytes of the bare status word `"repeat"`.
pub open spec fn spec_word_repeat() -> Seq<u8> {
    seq![114u8, 101u8, 112u8, 101u8, 97u8, 116u8]
}

fn word_repeat() -> (r: Vec<u8>)
    ensures
        r@ == spec_word_repeat(),
{
    let r = vec![114u8, 101u8, 112u8, 101u8, 97u8, 116u8];
    proof {
        assert(r@ =~= spec_word_repeat());
    }
    r
}

/// Parse a bare status word.
pub open spec fn spec_parse_word(m: Seq<u8>) -> Option<bool> {
    if m == spec_word_first() {
        Some(true)
    } else if m == spec_word_repeat() {
        Some(false)
    } else {
        None
    }
}

/// Decide whether two byte vectors hold the same bytes.
fn bytes_equal(a: &Vec<u8>, b: &Vec<u8>) -> (r: bool)
    ensures
        r == (a@ == b@),
{
    let alen = a.len();
    if alen != b.len() {
        proof {
            assert(a@.len() != b@.len());
        }
        return false;
    }
    let mut j: usize = 0;
    while j < alen
        invariant
            j <= alen,
            alen == a@.len() == b@.len(),
            forall|k: int| 0 <= k < j ==> a@[k] == b@[k],
        decreases alen - j,
    {
        if a[j] != b[j] {
            return false;
        }
        j += 1;
    }
    proof {
        assert(a@ =~= b@);
    }
    true
}

/// The view of an optional pinned key.
pub open spec fn spec_opt_bytes(o: Option<Vec<u8>>) -> Option<Seq<u8>> {
    match o {
        Some(v) => Some(v@),
        None => None,
    }
}

/// The client role's state: the static root key, the client's own key
/// pair, and the pinned server end-entity key once one full chain has
/// been verified.
pub struct ClientCtx<S: SigningScheme> {
    pub scheme: S,
    pub pk_root: Vec<u8>,
    pub pk_self: Vec<u8>,
    pub sk_self: Vec<u8>,
    pub pk_server: Option<Vec<u8>>,
}

impl<S: SigningScheme> ClientCtx<S> {
    pub open spec fn wf(&self) -> bool {
        &&& S::spec_pk_wf(self.pk_root@)
        &&& S::spec_pk_wf(self.pk_self@)
        &&& S::spec_sk_wf(self.sk_self@)
        &&& match self.pk_server {
            Some(p) => S::spec_pk_wf(p@),
            None => true,
        }
    }
}

/// The server role's state: as in the baseline, plus the flag derived
/// from the client's status word each connection.
pub struct ServerCtx<S: SigningScheme> {
    pub scheme: S,
    pub cert_chain: Vec<SignedCertificate>,
    pub sk_end: Vec<u8>,
    pub first: bool,
}

impl<S: SigningScheme> ServerCtx<S> {
    pub open spec fn wf(&self) -> bool {
        &&& self.cert_chain@.len() == 3
        &&& S::spec_sk_wf(self.sk_end@)
    }
}

/// Step 1: the client announces `"first"` until it has pinned a server
/// key, `"repeat"` afterwards, then sends the transcript marker.
pub fn client_transcript<S: SigningScheme>(client_ctx: &mut ClientCtx<S>, stream: &mut Duplex)
    requires
        old(stream).wf(),
    ensures
        final(stream).wf(),
        *final(client_ctx) == *old(client_ctx),
        final(stream).to_server.unread() == old(stream).to_server.unread() + len_prefixed(
            if old(client_ctx).pk_server is None {
                spec_word_first()
            } else {
                spec_word_repeat()
            },
        ) + len_prefixed(spec_transcript_marker()),
        final(stream).to_client == old(stream).to_client,
{
    let st = if client_ctx.pk_server.is_none() {
        word_first()
    } else {
        word_repeat()
    };
    write_bytes_stream(&mut stream.to_server, &st);
    let m = transcript_marker();
    write_bytes_stream(&mut stream.to_server, &m);
}

/// Step 2: the server reads the status word and, on a first connection,
/// delivers its full chain; a repeat connection sends nothing here.
pub fn server_certificate<S: SigningScheme>(server_ctx: &mut ServerCtx<S>, stream: &mut Duplex) -> (r:
    Result<(), ProtoError>)
    requires
        old(stream).wf(),
        old(server_ctx).wf(),
    ensures
        final(stream).wf(),
        final(server_ctx).wf(),
        final(server_ctx).cert_chain == old(server_ctx).cert_chain,
        final(server_ctx).sk_end == old(server_ctx).sk_end,
        final(stream).to_server.written() == old(stream).to_server.written(),
        match r {
            Ok(_) => exists|m: Seq<u8>|
                {
                    &&& spec_frame(old(stream).to_server.unread()) == Some(
                        (m, final(stream).to_server.unread()),
                    )
                    &&& spec_parse_word(m) == Some(final(server_ctx).first)
                    &&& if final(server_ctx).first {
                        &&& final(stream).to_client.unread() == old(stream).to_client.unread()
                            + spec_chain_payload(chain_views(old(server_ctx).cert_chain@))
                        &&& forall|i: int|
                            0 <= i < 3 ==> spec_scert_enc(
                                #[trigger] chain_views(old(server_ctx).cert_chain@)[i],
                            ).len() < pow256(8)
                    } else {
                        final(stream).to_client == old(stream).to_client
                    }
                },
            Err(e) => {
                &&& final(stream).to_client == old(stream).to_client
                &&& match e {
                    ProtoError::Truncated => {
                        &&& spec_frame(old(stream).to_server.unread()) is None
                        &&& final(stream).to_server == old(stream).to_server
                    },
                    ProtoError::BadStatus => exists|m: Seq<u8>|
                        {
                            &&& spec_frame(old(stream).to_server.unread()) == Some(
                                (m, final(stream).to_server.unread()),
                            )
                            &&& spec_parse_word(m) is None
                        },
                    _ => false,
                }
            },
        },
{
    let msg = match read_bytes_stream(&mut stream.to_server) {
        Ok(m) => m,
        Err(e) => { return Err(e) },
    };
    let wf_word = word_first();
    let wr_word = word_repeat();
    if bytes_equal(&msg, &wf_word) {
        server_ctx.first = true;
    } else if bytes_equal(&msg, &wr_word) {
        server_ctx.first = false;
    } else {
        proof {
            assert(spec_parse_word(msg@) is None);
        }
        return Err(ProtoError::BadStatus);
    }
    proof {
        assert(spec_parse_word(msg@) == Some(server_ctx.first));
    }
    if server_ctx.first {
        let ghost ch = chain_views(server_ctx.cert_chain@);
        proof {
            assert(ch[0] == server_ctx.cert_chain@[0]@);
            assert(ch[1] == server_ctx.cert_chain@[1]@);
            assert(ch[2] == server_ctx.cert_chain@[2]@);
        }
        let b0 = server_ctx.cert_chain[0].to_bytes();
        write_bytes_stream(&mut stream.to_client, &b0);
        let b1 = server_ctx.cert_chain[1].to_bytes();
        write_bytes_stream(&mut stream.to_client, &b1);
        let b2 = server_ctx.cert_chain[2].to_bytes();
        write_bytes_stream(&mut stream.to_client, &b2);
        proof {
            crate::encoding::lemma_pow256_8_value();
            assert(vstd::std_specs::vec::spec_vec_len(&b0) == b0@.len());
            assert(vstd::std_specs::vec::spec_vec_len(&b1) == b1@.len());
            assert(vstd::std_specs::vec::spec_vec_len(&b2) == b2@.len());
            assert(stream.to_client.unread() =~= old(stream).to_client.unread()
                + spec_chain_payload(ch));
        }
    }
    Ok(())
}

/// Step 3: the server reads the transcript marker, signs the transcript
/// (marker plus the chain encoding on first connections, the bare marker
/// on repeats) with its end-entity key, and sends the framed signature.
pub fn server_certificate_verify<S: SigningScheme>(
    server_ctx: &mut ServerCtx<S>,
    stream: &mut Duplex,
) -> (r: Result<(), ProtoError>)
    requires
        old(stream).wf(),
        old(server_ctx).wf(),
    ensures
        final(stream).wf(),
        final(server_ctx).cert_chain == old(server_ctx).cert_chain,
        final(server_ctx).sk_end == old(server_ctx).sk_end,
        final(server_ctx).first == old(server_ctx).first,
        final(stream).to_server.written() == old(stream).to_server.written(),
        match r {
            Ok(_) => exists|m: Seq<u8>, t: Seq<u8>|
                {
                    &&& spec_frame(old(stream).to_server.unread()) == Some(
                        (m, final(stream).to_server.unread()),
                    )
                    &&& final(stream).to_client.unread() == old(stream).to_client.unread()
                        + len_prefixed(t)
                    &&& S::spec_sig_wf(t)
                    &&& t.len() < pow256(8)
                    &&& forall|pk: Seq<u8>|
                        S::spec_keypair(old(server_ctx).sk_end@, pk) ==> S::spec_sig_ok(
                            pk,
                            m + (if old(server_ctx).first {
                                spec_chain_transcript(chain_views(old(server_ctx).cert_chain@))
                            } else {
                                Seq::<u8>::empty()
                            }),
                            t,
                        )
                },
            Err(e) => {
                &&& spec_frame(old(stream).to_server.unread()) is None
                &&& e == ProtoError::Truncated
                &&& final(stream).to_server == old(stream).to_server
                &&& final(stream).to_client == old(stream).to_client
            },
        },
{
    let mut transcript_bytes = match read_bytes_stream(&mut stream.to_server) {
        Ok(m) => m,
        Err(e) => { return Err(e) },
    };
    let ghost m_read = transcript_bytes@;
    if server_ctx.first {
        let ghost ch = chain_views(server_ctx.cert_chain@);
        proof {
            assert(ch[0] == server_ctx.cert_chain@[0]@);
            assert(ch[1] == server_ctx.cert_chain@[1]@);
            assert(ch[2] == server_ctx.cert_chain@[2]@);
        }
        let b0 = server_ctx.cert_chain[0].to_bytes();
        append_bytes(&mut transcript_bytes, &b0);
        let b1 = server_ctx.cert_chain[1].to_bytes();
        append_bytes(&mut transcript_bytes, &b1);
        let b2 = server_ctx.cert_chain[2].to_bytes();
        append_bytes(&mut transcript_bytes, &b2);
        proof {
            assert(transcript_bytes@ =~= m_read + spec_chain_transcript(ch));
        }
    } else {
        proof {
            assert(transcript_bytes@ =~= m_read + Seq::<u8>::empty());
        }
    }
    let signature = server_ctx.scheme.sign(&server_ctx.sk_end, &transcript_bytes);
    write_bytes_stream(&mut stream.to_client, &signature);
    proof {
        crate::encoding::lemma_pow256_8_value();
        assert(vstd::std_specs::vec::spec_vec_len(&signature) == signature@.len());
    }
    Ok(())
}

/// The repeat-connection decision: the server sends nothing but the
/// transcript signature, checked against the pinned key over the bare
/// marker.
pub open spec fn spec_pinned_verify<S: SigningScheme>(pk_server: Seq<u8>, b: Seq<u8>) -> Option<
    (bool, Seq<u8>),
> {
    match spec_frame(b) {
        Some((t, b1)) => if S::spec_sig_wf(t) {
            Some(
                (
                    S::spec_sig_ok(pk_server, spec_transcript_marker() + Seq::<u8>::empty(), t),
                    b1,
                ),
            )
        } else {
            None
        },
        None => None,
    }
}

/// The first-connection decision: the baseline chain checks, and the key
/// that gets pinned.  The pinned key is recorded as soon as the root
/// link verifies, before the transcript signature is read, matching the
/// wire behavior: a later failure still leaves the key pinned.
pub open spec fn spec_pinning_verify<S: SigningScheme>(pk_root: Seq<u8>, b: Seq<u8>) -> Option<
    (bool, Seq<u8>, Option<Seq<u8>>),
> {
    match spec_recv3(b) {
        Some((c0, c1, c2, b3)) => if !S::spec_sig_wf(c2.sig) {
            None
        } else if !S::spec_sig_ok(pk_root, spec_cert_enc(c2.cert), c2.sig) {
            Some((false, b3, None))
        } else if !S::spec_pk_wf(c0.cert.subject_pk) {
            None
        } else {
            match spec_frame(b3) {
                Some((t, b4)) => if S::spec_sig_wf(t) {
                    Some(
                        (
                            S::spec_sig_ok(
                                c0.cert.subject_pk,
                                spec_transcript_marker() + spec_scert_enc(c0) + spec_scert_enc(c1)
                                    + spec_scert_enc(c2),
                                t,
                            ),
                            b4,
                            Some(c0.cert.subject_pk),
                        ),
                    )
                } else {
                    None
                },
                None => None,
            }
        },
        None => None,
    }
}

/// Step 4: the client verifies.  On a first connection it checks the
/// chain's root link, pins the end-entity key, and checks the transcript
/// signature; on a repeat connection only the transcript signature,
/// against the pinned key.
#[verifier::rlimit(100)]
#[verifier::spinoff_prover]
pub fn client_verify<S: SigningScheme>(client_ctx: &mut ClientCtx<S>, stream: &mut Duplex) -> (r:
    Result<bool, ProtoError>)
    requires
        old(stream).wf(),
        old(client_ctx).wf(),
    ensures
        final(stream).wf(),
        final(client_ctx).wf(),
        final(client_ctx).pk_root == old(client_ctx).pk_root,
        final(client_ctx).pk_self == old(client_ctx).pk_self,
        final(client_ctx).sk_self == old(client_ctx).sk_self,
        final(stream).to_server == old(stream).to_server,
        final(stream).to_client.written() == old(stream).to_client.written(),
        match r {
            Ok(v) => if old(client_ctx).pk_server is None {
                match spec_pinning_verify::<S>(
                    old(client_ctx).pk_root@,
                    old(stream).to_client.unread(),
                ) {
                    Some(res) => {
                        &&& v == res.0
                        &&& final(stream).to_client.unread() == res.1
                        &&& spec_opt_bytes(final(client_ctx).pk_server) == res.2
                    },
                    None => false,
                }
            } else {
                &&& spec_pinned_verify::<S>(
                    old(client_ctx).pk_server->Some_0@,
                    old(stream).to_client.unread(),
                ) == Some((v, final(stream).to_client.unread()))
                &&& final(client_ctx).pk_server == old(client_ctx).pk_server
            },
            Err(e) => {
                &&& if old(client_ctx).pk_server is None {
                    spec_pinning_verify::<S>(
                        old(client_ctx).pk_root@,
                        old(stream).to_client.unread(),
                    ) is None
                } else {
                    spec_pinned_verify::<S>(
                        old(client_ctx).pk_server->Some_0@,
                        old(stream).to_client.unread(),
                    ) is None
                }
                &&& (e == ProtoError::Truncated || e == ProtoError::DecodeFailed)
            },
        },
{
    if client_ctx.pk_server.is_none() {
        let c0b = match read_bytes_stream(&mut stream.to_client) {
            Ok(m) => m,
            Err(e) => { return Err(e) },
        };
        let c0 = match SignedCertificate::decode(&c0b) {
            Ok(c) => c,
            Err(e) => { return Err(e) },
        };
        let c1b = match read_bytes_stream(&mut stream.to_client) {
            Ok(m) => m,
            Err(e) => { return Err(e) },
        };
        let c1 = match SignedCertificate::decode(&c1b) {
            Ok(c) => c,
            Err(e) => { return Err(e) },
        };
        let c2b = match read_bytes_stream(&mut stream.to_client) {
            Ok(m) => m,
            Err(e) => { return Err(e) },
        };
        let c2 = match SignedCertificate::decode(&c2b) {
            Ok(c) => c,
            Err(e) => { return Err(e) },
        };
        if !S::sig_wf(&c2.signature) {
            return Err(ProtoError::DecodeFailed);
        }
        let c2_cert_bytes = c2.certificate.to_bytes();
        let root_ok = client_ctx.scheme.verify(
            &client_ctx.pk_root,
            &c2_cert_bytes,
            &c2.signature,
        );
        if !root_ok {
            return Ok(false);
        }
        if !S::pk_wf(&c0.certificate.subject_pk) {
            return Err(ProtoError::DecodeFailed);
        }
        client_ctx.pk_server = Some(copy_bytes(&c0.certificate.subject_pk));
        let t = match read_bytes_stream(&mut stream.to_client) {
            Ok(m) => m,
            Err(e) => { return Err(e) },
        };
        if !S::sig_wf(&t) {
            return Err(ProtoError::DecodeFailed);
        }
        let mut msg = transcript_marker();
        let e0 = c0.to_bytes();
        append_bytes(&mut msg, &e0);
        let e1 = c1.to_bytes();
        append_bytes(&mut msg, &e1);
        let e2 = c2.to_bytes();
        append_bytes(&mut msg, &e2);
        proof {
            assert(msg@ =~= spec_transcript_marker() + spec_scert_enc(c0@) + spec_scert_enc(c1@)
                + spec_scert_enc(c2@));
        }
        let ok = client_ctx.scheme.verify(&c0.certificate.subject_pk, &msg, &t);
        Ok(ok)
    } else {
        let t = match read_bytes_stream(&mut stream.to_client) {
            Ok(m) => m,
            Err(e) => { return Err(e) },
        };
        if !S::sig_wf(&t) {
            return Err(ProtoError::DecodeFailed);
        }
        let mut msg = transcript_marker();
        proof {
            assert(msg@ =~= spec_transcript_marker() + Seq::<u8>::empty());
        }
        let pinned = match &client_ctx.pk_server {
            Some(p) => copy_bytes(p),
            None => { return Err(ProtoError::DecodeFailed) },
        };
        let ok = client_ctx.scheme.verify(&pinned, &msg, &t);
        Ok(ok)
    }
}

/// The client-side caching handshake variant, generic over the signing
/// capability that stands in for the post-quantum scheme.
pub struct ClientCachingTls<S: SigningScheme> {
    _scheme: core::marker::PhantomData<S>,
}

/// An honestly provisioned client-caching session.
pub open spec fn ccache_honest_pair<S: SigningScheme>(
    cx: ClientCtx<S>,
    sx: ServerCtx<S>,
) -> bool {
    &&& cx.wf()
    &&& sx.wf()
    &&& exists|sk_root: Seq<u8>|
        spec_chain_ok::<S>(chain_views(sx.cert_chain@), cx.pk_root@, sk_root, sx.sk_end@)
}

impl<S: SigningScheme> ClientCachingTls<S> {
    /// Build one session's pair of contexts, with no key pinned yet and
    /// the server in first-connection state.
    pub fn new(mut chain_scheme: S, mut client_scheme: S, server_scheme: S) -> (r: (
        ClientCtx<S>,
        ServerCtx<S>,
    ))
        ensures
            ccache_honest_pair(r.0, r.1),
            r.0.pk_server is None,
            r.1.first == true,
    {
        let (cert_chain, pk_root, sk_root, sk_end) = make_cert_chain(&mut chain_scheme);
        let (sk_self, pk_self) = client_scheme.keygen();
        let cx = ClientCtx { scheme: client_scheme, pk_root, pk_self, sk_self, pk_server: None };
        let sx = ServerCtx { scheme: server_scheme, cert_chain, sk_end, first: true };
        proof {
            assert(spec_chain_ok::<S>(
                chain_views(sx.cert_chain@),
                cx.pk_root@,
                sk_root@,
                sx.sk_end@,
            ));
        }
        (cx, sx)
    }
}

/// What an honest server leaves on the wire on a first connection makes
/// the pinning decision come out `true`, with the chain's end-entity key
/// pinned and every byte consumed.
proof fn lemma_pinning_verify_accepts<S: SigningScheme>(
    pk_root: Seq<u8>,
    sk_root: Seq<u8>,
    sk_end: Seq<u8>,
    ch: Seq<crate::cert::SignedCertView>,
    t: Seq<u8>,
    u: Seq<u8>,
)
    requires
        spec_chain_ok::<S>(ch, pk_root, sk_root, sk_end),
        u == spec_chain_payload(ch) + len_prefixed(t),
        forall|i: int|
            0 <= i < 3 ==> spec_scert_enc(#[trigger] ch[i]).len() < pow256(8),
        t.len() < pow256(8),
        S::spec_sig_wf(t),
        forall|pk: Seq<u8>|
            S::spec_keypair(sk_end, pk) ==> S::spec_sig_ok(
                pk,
                spec_transcript_marker() + spec_chain_transcript(ch),
                t,
            ),
    ensures
        spec_pinning_verify::<S>(pk_root, u) == Some(
            (true, Seq::<u8>::empty(), Some(ch[0].cert.subject_pk)),
        ),
{
    crate::pqccache::lemma_recv3_of_payload(ch, t, u);
    assert(len_prefixed(t) + Seq::<u8>::empty() =~= len_prefixed(t));
    crate::encoding::lemma_frame_of_prefixed(t, Seq::<u8>::empty());
    assert(S::spec_sig_ok(pk_root, spec_cert_enc(ch[2].cert), ch[2].sig));
    assert(S::spec_sig_ok(
        ch[0].cert.subject_pk,
        spec_transcript_marker() + spec_chain_transcript(ch),
        t,
    ));
    assert(spec_transcript_marker() + spec_scert_enc(ch[0]) + spec_scert_enc(ch[1])
        + spec_scert_enc(ch[2]) =~= spec_transcript_marker() + spec_chain_transcript(ch));
}

/// The state after one successful first connection: the client has
/// pinned the key paired with the server's end-entity signing key.
pub open spec fn ccache_pinned<S: SigningScheme>(cx: ClientCtx<S>, sx: ServerCtx<S>) -> bool {
    &&& cx.wf()
    &&& sx.wf()
    &&& cx.pk_server is Some
    &&& S::spec_keypair(sx.sk_end@, cx.pk_server->Some_0@)
}

/// First-connection success: for every signing capability and every
/// honestly provisioned pair of contexts, running the four
/// first-connection steps over a fresh duplex pipe ends with the client
/// accepting and the server's end-entity key pinned.
#[verifier::rlimit(100)]
#[verifier::spinoff_prover]
pub fn run_ccache_first<S: SigningScheme>(cx: &mut ClientCtx<S>, sx: &mut ServerCtx<S>) -> (r:
    Result<bool, ProtoError>)
    requires
        ccache_honest_pair(*old(cx), *old(sx)),
        old(cx).pk_server is None,
    ensures
        r == Ok::<bool, ProtoError>(true),
        ccache_pinned(*final(cx), *final(sx)),
{
    let ghost ch = chain_views(sx.cert_chain@);
    let ghost sk_rootw = choose|skr: Seq<u8>|
        spec_chain_ok::<S>(chain_views(sx.cert_chain@), cx.pk_root@, skr, sx.sk_end@);
    let ghost sk_end_v = sx.sk_end@;
    let ghost mk = spec_transcript_marker();

    let mut d = Duplex::new();
    client_transcript(cx, &mut d);
    let ghost pre_s1 = d.to_server.unread();
    proof {
        crate::encoding::lemma_pow256_8_value();
        assert(pre_s1 =~= len_prefixed(spec_word_first()) + len_prefixed(mk));
        crate::encoding::lemma_frame_of_prefixed(spec_word_first(), len_prefixed(mk));
        assert(spec_parse_word(spec_word_first()) == Some(true));
    }
    match server_certificate(sx, &mut d) {
        Ok(_) => {},
        Err(e) => {
            proof {
                assert(false);
            }
            return Err(e);
        },
    }
    let ghost m1 = choose|m: Seq<u8>|
        {
            &&& spec_frame(pre_s1) == Some((m, d.to_server.unread()))
            &&& spec_parse_word(m) == Some(sx.first)
            &&& if sx.first {
                &&& d.to_client.unread() == Seq::<u8>::empty() + spec_chain_payload(ch)
                &&& forall|i: int|
                    0 <= i < 3 ==> spec_scert_enc(#[trigger] ch[i]).len() < pow256(8)
            } else {
                true
            }
        };
    proof {
        assert(m1 == spec_word_first());
        assert(sx.first == true);
        assert(d.to_server.unread() =~= len_prefixed(mk));
        crate::encoding::lemma_frame_of_prefixed(mk, Seq::<u8>::empty());
        assert(len_prefixed(mk) + Seq::<u8>::empty() =~= len_prefixed(mk));
    }
    let ghost pre_s2 = d.to_server.unread();
    let ghost pre_c2 = d.to_client.unread();
    let ghost sx_before_cv = *sx;
    match server_certificate_verify(sx, &mut d) {
        Ok(_) => {},
        Err(e) => {
            proof {
                assert(false);
            }
            return Err(e);
        },
    }
    let ghost (m2, t1) = choose|m: Seq<u8>, t: Seq<u8>|
        {
            &&& spec_frame(pre_s2) == Some((m, d.to_server.unread()))
            &&& d.to_client.unread() == pre_c2 + len_prefixed(t)
            &&& S::spec_sig_wf(t)
            &&& t.len() < pow256(8)
            &&& forall|pk: Seq<u8>|
                S::spec_keypair(sx_before_cv.sk_end@, pk) ==> S::spec_sig_ok(
                    pk,
                    m + (if sx_before_cv.first {
                        spec_chain_transcript(chain_views(sx_before_cv.cert_chain@))
                    } else {
                        Seq::<u8>::empty()
                    }),
                    t,
                )
        };
    let ghost u1 = d.to_client.unread();
    proof {
        assert(m2 == mk);
        assert(chain_views(sx_before_cv.cert_chain@) == ch);
        assert(u1 =~= spec_chain_payload(ch) + len_prefixed(t1));
        assert(forall|pk: Seq<u8>|
            S::spec_keypair(sk_end_v, pk) ==> S::spec_sig_ok(
                pk,
                mk + spec_chain_transcript(ch),
                t1,
            ));
        lemma_pinning_verify_accepts::<S>(cx.pk_root@, sk_rootw, sk_end_v, ch, t1, u1);
    }
    let v1 = match client_verify(cx, &mut d) {
        Ok(v) => v,
        Err(e) => {
            proof {
                assert(false);
            }
            return Err(e);
        },
    };
    proof {
        assert(v1 == true);
        assert(spec_opt_bytes(cx.pk_server) == Some(ch[0].cert.subject_pk));
        assert(S::spec_keypair(sx.sk_end@, cx.pk_server->Some_0@));
    }
    Ok(v1)
}

/// Repeat-connection success: once a key is pinned, running the four
/// repeat-connection steps over a fresh duplex pipe ends with the client
/// accepting again, without a single certificate crossing the wire.
#[verifier::rlimit(100)]
#[verifier::spinoff_prover]
pub fn run_ccache_repeat<S: SigningScheme>(cx: &mut ClientCtx<S>, sx: &mut ServerCtx<S>) -> (r:
    Result<bool, ProtoError>)
    requires
        ccache_pinned(*old(cx), *old(sx)),
    ensures
        r == Ok::<bool, ProtoError>(true),
        ccache_pinned(*final(cx), *final(sx)),
{
    let ghost ch = chain_views(sx.cert_chain@);
    let ghost mk = spec_transcript_marker();
    let ghost pinned_pk = cx.pk_server->Some_0@;

    let mut d = Duplex::new();
    client_transcript(cx, &mut d);
    let ghost pre_s1 = d.to_server.unread();
    proof {
        crate::encoding::lemma_pow256_8_value();
        assert(pre_s1 =~= len_prefixed(spec_word_repeat()) + len_prefixed(mk));
        crate::encoding::lemma_frame_of_prefixed(spec_word_repeat(), len_prefixed(mk));
        assert(spec_word_repeat().len() != spec_word_first().len());
        assert(spec_parse_word(spec_word_repeat()) == Some(false));
    }
    let ghost pre_tc = d.to_client;
    match server_certificate(sx, &mut d) {
        Ok(_) => {},
        Err(e) => {
            proof {
                assert(false);
            }
            return Err(e);
        },
    }
    let ghost m1 = choose|m: Seq<u8>|
        {
            &&& spec_frame(pre_s1) == Some((m, d.to_server.unread()))
            &&& spec_parse_word(m) == Some(sx.first)
            &&& if sx.first {
                &&& d.to_client.unread() == Seq::<u8>::empty() + spec_chain_payload(ch)
                &&& forall|i: int|
                    0 <= i < 3 ==> spec_scert_enc(#[trigger] ch[i]).len() < pow256(8)
            } else {
                d.to_client == pre_tc
            }
        };
    proof {
        assert(m1 == spec_word_repeat());
        assert(sx.first == false);
        assert(d.to_server.unread() =~= len_prefixed(mk));
        crate::encoding::lemma_frame_of_prefixed(mk, Seq::<u8>::empty());
        assert(len_prefixed(mk) + Seq::<u8>::empty() =~= len_prefixed(mk));
    }
    let ghost pre_s2 = d.to_server.unread();
    let ghost pre_c2 = d.to_client.unread();
    let ghost sx_before_cv = *sx;
    match server_certificate_verify(sx, &mut d) {
        Ok(_) => {},
        Err(e) => {
            proof {
                assert(false);
            }
            return Err(e);
        },
    }
    let ghost (m2, t1) = choose|m: Seq<u8>, t: Seq<u8>|
        {
            &&& spec_frame(pre_s2) == Some((m, d.to_server.unread()))
            &&& d.to_client.unread() == pre_c2 + len_prefixed(t)
            &&& S::spec_sig_wf(t)
            &&& t.len() < pow256(8)
            &&& forall|pk: Seq<u8>|
                S::spec_keypair(sx_before_cv.sk_end@, pk) ==> S::spec_sig_ok(
                    pk,
                    m + (if sx_before_cv.first {
                        spec_chain_transcript(chain_views(sx_before_cv.cert_chain@))
                    } else {
                        Seq::<u8>::empty()
                    }),
                    t,
                )
        };
    let ghost u1 = d.to_client.unread();
    proof {
        assert(m2 == mk);
        assert(u1 =~= len_prefixed(t1) + Seq::<u8>::empty());
        assert(u1 =~= len_prefixed(t1));
        crate::encoding::lemma_frame_of_prefixed(t1, Seq::<u8>::empty());
        assert(S::spec_sig_ok(pinned_pk, mk + Seq::<u8>::empty(), t1));
        assert(spec_pinned_verify::<S>(pinned_pk, u1) == Some((true, Seq::<u8>::empty())));
    }
    let v = match client_verify(cx, &mut d) {
        Ok(v) => v,
        Err(e) => {
            proof {
                assert(false);
            }
            return Err(e);
        },
    };
    proof {
        assert(v == true);
    }
    Ok(v)
}

} // verus!
