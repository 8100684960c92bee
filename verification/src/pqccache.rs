//! The caching handshake variant: session pinning amortizes certificate
//! transmission across repeat connections.
//!
//! A client announces `"first <id>"` or `"repeat <id>"` before its
//! transcript marker.  On a first connection the server sends its full
//! chain exactly as in the baseline protocol, and after verifying it the
//! client issues a *pinning certificate* — its own attestation of the
//! server's end-entity key — signs it with its own long-lived key and
//! sends it back; the server stores it in a cache keyed by the session
//! identifier, without verifying its signature (the server has no key to
//! check it against; the repeat-connection client check is what exposes
//! a corrupted entry).  On a repeat connection the
//! server replays only the cached pinning certificate, and the client
//! checks it against its own public key: a self-consistency check that
//! the server faithfully replayed what was cached.
//!
//! Entries are inserted once, on a first connection, and never evicted:
//! the cache grows with the number of distinct identifiers a server
//! context serves, which is acceptable for session-scoped contexts but a
//! known limitation for a long-lived server.

use std::collections::HashMap;

use vstd::prelude::*;

use crate::cert::{
    append_bytes, spec_cert_enc, spec_scert_dec, spec_scert_enc, CertView, Certificate,
    SignedCertView, SignedCertificate,
};
use crate::chain::{chain_views, copy_bytes, make_cert_chain, spec_chain_ok};
use crate::encoding::{
    dec_digits, len_prefixed, parse_dec_bytes, pow256, spec_frame, spec_parse_dec,
    u32_to_dec_bytes,
};
use crate::error::ProtoError;
use crate::handshake::{spec_chain_payload, spec_chain_transcript};
use crate::names::{
    first_prefix, name_client, name_end_entity, repeat_prefix, spec_first_prefix,
    spec_name_client, spec_name_end_entity, spec_repeat_prefix, spec_transcript_marker,
    transcript_marker,
};
use crate::signing_scheme::{SigningScheme, ToBytes};
use crate::stream::{read_bytes_stream, write_bytes_stream, Duplex};

verus! {

/// The status message announcing a first or repeat connection for a
/// session identifier: `"first <id>"` or `"repeat <id>"`.
pub open spec fn spec_status(first: bool, id: u32) -> Seq<u8> {
    (if first {
        spec_first_prefix()
    } else {
        spec_repeat_prefix()
    }) + dec_digits(id as nat)
}

/// Parse a status message: a `"first "` or `"repeat "` prefix followed by
/// a decimal session identifier, and nothing else.
pub open spec fn spec_parse_status(m: Seq<u8>) -> Option<(bool, u32)> {
    if m.len() >= 6 && m.take(6) == spec_first_prefix() && spec_parse_dec(m.skip(6)) is Some {
        Some((true, spec_parse_dec(m.skip(6))->Some_0))
    } else if m.len() >= 7 && m.take(7) == spec_repeat_prefix() && spec_parse_dec(
        m.skip(7),
    ) is Some {
        Some((false, spec_parse_dec(m.skip(7))->Some_0))
    } else {
        None
    }
}

/// Every status message parses back to the flag and identifier it was
/// built from.
pub proof fn lemma_status_round_trip(first: bool, id: u32)
    ensures
        spec_parse_status(spec_status(first, id)) == Some((first, id)),
{
    let s = spec_status(first, id);
    crate::encoding::lemma_dec_digits_wf(id as nat);
    crate::encoding::lemma_dec_val_of_digits(id as nat);
    if first {
        assert(s.take(6) =~= spec_first_prefix());
        assert(s.skip(6) =~= dec_digits(id as nat));
    } else {
        assert(s.take(7) =~= spec_repeat_prefix());
        assert(s.skip(7) =~= dec_digits(id as nat));
        assert(s.len() >= 8);
        assert(s[0] == 114u8);
        assert(s.take(6)[0] == 114u8);
        assert(spec_first_prefix()[0] == 102u8);
        assert(s.take(6) != spec_first_prefix());
    }
}

/// Render the status message for (`first`, `id`).
pub fn status_bytes(first: bool, id: u32) -> (r: Vec<u8>)
    ensures
        r@ == spec_status(first, id),
{
    let mut r = if first {
        first_prefix()
    } else {
        repeat_prefix()
    };
    let d = u32_to_dec_bytes(id);
    append_bytes(&mut r, &d);
    r
}

/// Decide whether `m` starts with `p`.
fn has_prefix(m: &Vec<u8>, p: &Vec<u8>) -> (b: bool)
    ensures
        b == (m@.len() >= p@.len() && m@.take(p@.len() as int) == p@),
{
    let plen = p.len();
    if m.len() < plen {
        return false;
    }
    let mut j: usize = 0;
    while j < plen
        invariant
            j <= plen,
            plen == p@.len(),
            m@.len() >= plen,
            forall|k: int| 0 <= k < j ==> m@[k] == p@[k],
        decreases plen - j,
    {
        if m[j] != p[j] {
            proof {
                assert(m@.take(plen as int)[j as int] != p@[j as int]);
            }
            return false;
        }
        j += 1;
    }
    proof {
        assert(m@.take(plen as int) =~= p@);
    }
    true
}

/// Parse a status message, exactly as `spec_parse_status` does.
pub fn parse_status(m: &Vec<u8>) -> (r: Option<(bool, u32)>)
    ensures
        r == spec_parse_status(m@),
{
    let fp = first_prefix();
    if has_prefix(m, &fp) {
        return match parse_dec_bytes(m, 6) {
            Some(id) => Some((true, id)),
            None => {
                proof {
                    if m@.len() >= 7 && m@.take(7) == spec_repeat_prefix() {
                        assert(m@.take(7)[0] == m@[0]);
                        assert(m@.take(6)[0] == m@[0]);
                        assert(spec_first_prefix()[0] == 102u8);
                        assert(spec_repeat_prefix()[0] == 114u8);
                    }
                }
                None
            },
        };
    }
    let rp = repeat_prefix();
    if has_prefix(m, &rp) {
        proof {
            if m@.len() >= 6 && m@.take(6) == spec_first_prefix() {
                assert(m@.take(7)[0] == m@[0]);
                assert(m@.take(6)[0] == m@[0]);
                assert(spec_first_prefix()[0] == 102u8);
                assert(spec_repeat_prefix()[0] == 114u8);
            }
        }
        return match parse_dec_bytes(m, 7) {
            Some(id) => Some((false, id)),
            None => None,
        };
    }
    None
}

/// The client role's state for the caching variant: the static root key,
/// the client's own long-lived key pair (which issues pinning
/// certificates), and the session bookkeeping.
pub struct ClientCtx<S: SigningScheme> {
    pub scheme: S,
    pub pk_root: Vec<u8>,
    pub pk_self: Vec<u8>,
    pub sk_self: Vec<u8>,
    pub first: bool,
    pub id: u32,
}

impl<S: SigningScheme> ClientCtx<S> {
    pub open spec fn wf(&self) -> bool {
        &&& S::spec_pk_wf(self.pk_root@)
        &&& S::spec_pk_wf(self.pk_self@)
        &&& S::spec_sk_wf(self.sk_self@)
        &&& S::spec_keypair(self.sk_self@, self.pk_self@)
    }
}

/// The server role's state for the caching variant: the chain and
/// end-entity key as in the baseline, plus the cache of pinning
/// certificates keyed by session identifier and the connection
/// bookkeeping derived from the client's status message.
pub struct ServerCtx<S: SigningScheme> {
    pub scheme: S,
    pub cert_chain: Vec<SignedCertificate>,
    pub sk_end: Vec<u8>,
    pub cache: HashMap<u32, SignedCertificate>,
    pub first: bool,
    pub id: u32,
}

impl<S: SigningScheme> ServerCtx<S> {
    pub open spec fn wf(&self) -> bool {
        &&& self.cert_chain@.len() == 3
        &&& S::spec_sk_wf(self.sk_end@)
    }
}

/// Step 1: the client announces its connection status, then sends the
/// transcript marker.
pub fn client_transcript<S: SigningScheme>(client_ctx: &mut ClientCtx<S>, stream: &mut Duplex)
    requires
        old(stream).wf(),
    ensures
        final(stream).wf(),
        *final(client_ctx) == *old(client_ctx),
        final(stream).to_server.unread() == old(stream).to_server.unread() + len_prefixed(
            spec_status(old(client_ctx).first, old(client_ctx).id),
        ) + len_prefixed(spec_transcript_marker()),
        final(stream).to_client == old(stream).to_client,
{
    let st = status_bytes(client_ctx.first, client_ctx.id);
    write_bytes_stream(&mut stream.to_server, &st);
    let m = transcript_marker();
    write_bytes_stream(&mut stream.to_server, &m);
}

/// Step 2: the server reads the status message, records the connection
/// mode and identifier, and delivers either its full chain (first
/// connection) or the single cached pinning certificate (repeat
/// connection).  An unreadable status is fatal; a repeat connection for
/// an identifier the cache has never seen fails with a cache miss, never
/// a fabricated certificate.
pub fn server_certificate<S: SigningScheme>(server_ctx: &mut ServerCtx<S>, stream: &mut Duplex) -> (r:
    Result<(), ProtoError>)
    requires
        old(stream).wf(),
        old(server_ctx).wf(),
    ensures
        final(stream).wf(),
        final(server_ctx).wf(),
        final(server_ctx).cert_chain == old(server_ctx).cert_chain,
        final(server_ctx).sk_end == old(server_ctx).sk_end,
        final(server_ctx).cache == old(server_ctx).cache,
        final(stream).to_server.written() == old(stream).to_server.written(),
        match r {
            Ok(_) => exists|m: Seq<u8>|
                {
                    &&& spec_frame(old(stream).to_server.unread()) == Some(
                        (m, final(stream).to_server.unread()),
                    )
                    &&& spec_parse_status(m) == Some(
                        (final(server_ctx).first, final(server_ctx).id),
                    )
                    &&& if final(server_ctx).first {
                        &&& final(stream).to_client.unread() == old(stream).to_client.unread()
                            + spec_chain_payload(chain_views(old(server_ctx).cert_chain@))
                        &&& forall|i: int|
                            0 <= i < 3 ==> spec_scert_enc(
                                #[trigger] chain_views(old(server_ctx).cert_chain@)[i],
                            ).len() < pow256(8)
                    } else {
                        &&& old(server_ctx).cache@.contains_key(final(server_ctx).id)
                        &&& final(stream).to_client.unread() == old(stream).to_client.unread()
                            + len_prefixed(
                            spec_scert_enc(old(server_ctx).cache@[final(server_ctx).id]@),
                        )
                        &&& spec_scert_enc(old(server_ctx).cache@[final(server_ctx).id]@).len()
                            < pow256(8)
                    }
                },
            Err(e) => {
                &&& final(stream).to_client == old(stream).to_client
                &&& match e {
                    ProtoError::Truncated => {
                        &&& spec_frame(old(stream).to_server.unread()) is None
                        &&& final(stream).to_server == old(stream).to_server
                    },
                    ProtoError::BadStatus => exists|m: Seq<u8>|
                        {
                            &&& spec_frame(old(stream).to_server.unread()) == Some(
                                (m, final(stream).to_server.unread()),
                            )
                            &&& spec_parse_status(m) is None
                        },
                    ProtoError::CacheMiss => exists|m: Seq<u8>, id: u32|
                        {
                            &&& spec_frame(old(stream).to_server.unread()) == Some(
                                (m, final(stream).to_server.unread()),
                            )
                            &&& spec_parse_status(m) == Some((false, id))
                            &&& !old(server_ctx).cache@.contains_key(id)
                        },
                    _ => false,
                }
            },
        },
{
    let msg = match read_bytes_stream(&mut stream.to_server) {
        Ok(m) => m,
        Err(e) => { return Err(e) },
    };
    let (is_first, id) = match parse_status(&msg) {
        Some(p) => p,
        None => { return Err(ProtoError::BadStatus) },
    };
    server_ctx.first = is_first;
    server_ctx.id = id;
    if is_first {
        let ghost ch = chain_views(server_ctx.cert_chain@);
        proof {
            assert(ch[0] == server_ctx.cert_chain@[0]@);
            assert(ch[1] == server_ctx.cert_chain@[1]@);
            assert(ch[2] == server_ctx.cert_chain@[2]@);
        }
        let b0 = server_ctx.cert_chain[0].to_bytes();
        write_bytes_stream(&mut stream.to_client, &b0);
        let b1 = server_ctx.cert_chain[1].to_bytes();
        write_bytes_stream(&mut stream.to_client, &b1);
        let b2 = server_ctx.cert_chain[2].to_bytes();
        write_bytes_stream(&mut stream.to_client, &b2);
        proof {
            crate::encoding::lemma_pow256_8_value();
            assert(vstd::std_specs::vec::spec_vec_len(&b0) == b0@.len());
            assert(vstd::std_specs::vec::spec_vec_len(&b1) == b1@.len());
            assert(vstd::std_specs::vec::spec_vec_len(&b2) == b2@.len());
            assert(stream.to_client.unread() =~= old(stream).to_client.unread()
                + spec_chain_payload(ch));
        }
    } else {
        let cached = match server_ctx.cache.get(&id) {
            Some(c) => c,
            None => { return Err(ProtoError::CacheMiss) },
        };
        let b = cached.to_bytes();
        write_bytes_stream(&mut stream.to_client, &b);
        proof {
            crate::encoding::lemma_pow256_8_value();
            assert(vstd::std_specs::vec::spec_vec_len(&b) == b@.len());
        }
    }
    Ok(())
}

/// The certificate bytes the server's transcript signature covers: the
/// unframed chain encoding on a first connection, the cached pinning
/// certificate's encoding on a repeat connection.
pub open spec fn spec_cv_payload<S: SigningScheme>(sx: ServerCtx<S>) -> Seq<u8> {
    if sx.first {
        spec_chain_transcript(chain_views(sx.cert_chain@))
    } else {
        spec_scert_enc(sx.cache@[sx.id]@)
    }
}

/// Step 3: the server reads the transcript marker, signs the transcript
/// (marker plus this connection's certificate payload) with its
/// end-entity key, and sends the framed signature.
pub fn server_certificate_verify<S: SigningScheme>(
    server_ctx: &mut ServerCtx<S>,
    stream: &mut Duplex,
) -> (r: Result<(), ProtoError>)
    requires
        old(stream).wf(),
        old(server_ctx).wf(),
    ensures
        final(stream).wf(),
        final(server_ctx).cert_chain == old(server_ctx).cert_chain,
        final(server_ctx).sk_end == old(server_ctx).sk_end,
        final(server_ctx).cache == old(server_ctx).cache,
        final(server_ctx).first == old(server_ctx).first,
        final(server_ctx).id == old(server_ctx).id,
        final(stream).to_server.written() == old(stream).to_server.written(),
        match r {
            Ok(_) => exists|m: Seq<u8>, t: Seq<u8>|
                {
                    &&& spec_frame(old(stream).to_server.unread()) == Some(
                        (m, final(stream).to_server.unread()),
                    )
                    &&& final(stream).to_client.unread() == old(stream).to_client.unread()
                        + len_prefixed(t)
                    &&& S::spec_sig_wf(t)
                    &&& t.len() < pow256(8)
                    &&& forall|pk: Seq<u8>|
                        S::spec_keypair(old(server_ctx).sk_end@, pk) ==> S::spec_sig_ok(
                            pk,
                            m + spec_cv_payload(*old(server_ctx)),
                            t,
                        )
                },
            Err(e) => {
                &&& final(stream).to_client == old(stream).to_client
                &&& match e {
                    ProtoError::Truncated => {
                        &&& spec_frame(old(stream).to_server.unread()) is None
                        &&& final(stream).to_server == old(stream).to_server
                    },
                    ProtoError::CacheMiss => {
                        &&& !old(server_ctx).first
                        &&& !old(server_ctx).cache@.contains_key(old(server_ctx).id)
                    },
                    _ => false,
                }
            },
        },
{
    let mut transcript_bytes = match read_bytes_stream(&mut stream.to_server) {
        Ok(m) => m,
        Err(e) => { return Err(e) },
    };
    let ghost m_read = transcript_bytes@;
    if server_ctx.first {
        let ghost ch = chain_views(server_ctx.cert_chain@);
        proof {
            assert(ch[0] == server_ctx.cert_chain@[0]@);
            assert(ch[1] == server_ctx.cert_chain@[1]@);
            assert(ch[2] == server_ctx.cert_chain@[2]@);
        }
        let b0 = server_ctx.cert_chain[0].to_bytes();
        append_bytes(&mut transcript_bytes, &b0);
        let b1 = server_ctx.cert_chain[1].to_bytes();
        append_bytes(&mut transcript_bytes, &b1);
        let b2 = server_ctx.cert_chain[2].to_bytes();
        append_bytes(&mut transcript_bytes, &b2);
        proof {
            assert(transcript_bytes@ =~= m_read + spec_cv_payload(*old(server_ctx)));
        }
    } else {
        let cached = match server_ctx.cache.get(&server_ctx.id) {
            Some(c) => c,
            None => { return Err(ProtoError::CacheMiss) },
        };
        let b = cached.to_bytes();
        append_bytes(&mut transcript_bytes, &b);
        proof {
            assert(transcript_bytes@ =~= m_read + spec_cv_payload(*old(server_ctx)));
        }
    }
    let signature = server_ctx.scheme.sign(&server_ctx.sk_end, &transcript_bytes);
    write_bytes_stream(&mut stream.to_client, &signature);
    proof {
        crate::encoding::lemma_pow256_8_value();
        assert(vstd::std_specs::vec::spec_vec_len(&signature) == signature@.len());
        assert({
            &&& spec_frame(old(stream).to_server.unread()) == Some(
                (m_read, stream.to_server.unread()),
            )
            &&& stream.to_client.unread() == old(stream).to_client.unread() + len_prefixed(
                signature@,
            )
            &&& S::spec_sig_wf(signature@)
            &&& signature@.len() < pow256(8)
            &&& forall|pk: Seq<u8>|
                S::spec_keypair(old(server_ctx).sk_end@, pk) ==> S::spec_sig_ok(
                    pk,
                    m_read + spec_cv_payload(*old(server_ctx)),
                    signature@,
                )
        });
    }
    Ok(())
}

/// Step 5 (first connections only): the server reads the client's
/// pinning certificate and stores it in the cache under this session's
/// identifier.  The signature on the stored certificate is deliberately
/// not verified here, preserving the measured protocol's behavior; the
/// repeat-connection client check is what exposes a corrupted entry.
pub fn server_store_pin<S: SigningScheme>(server_ctx: &mut ServerCtx<S>, stream: &mut Duplex) -> (r:
    Result<(), ProtoError>)
    requires
        old(stream).wf(),
        old(server_ctx).wf(),
    ensures
        final(stream).wf(),
        final(server_ctx).wf(),
        final(server_ctx).cert_chain == old(server_ctx).cert_chain,
        final(server_ctx).sk_end == old(server_ctx).sk_end,
        final(server_ctx).first == old(server_ctx).first,
        final(server_ctx).id == old(server_ctx).id,
        final(stream).to_client == old(stream).to_client,
        final(stream).to_server.written() == old(stream).to_server.written(),
        match r {
            Ok(_) => if old(server_ctx).first {
                exists|pb: Seq<u8>, c: SignedCertificate|
                    {
                        &&& spec_frame(old(stream).to_server.unread()) == Some(
                            (pb, final(stream).to_server.unread()),
                        )
                        &&& spec_scert_dec(pb) == Some(c@)
                        &&& final(server_ctx).cache@ == old(server_ctx).cache@.insert(
                            old(server_ctx).id,
                            c,
                        )
                    }
            } else {
                &&& final(server_ctx).cache == old(server_ctx).cache
                &&& final(stream).to_server == old(stream).to_server
            },
            Err(e) => {
                &&& old(server_ctx).first
                &&& final(server_ctx).cache == old(server_ctx).cache
                &&& match e {
                    ProtoError::Truncated => spec_frame(old(stream).to_server.unread()) is None,
                    ProtoError::DecodeFailed => exists|pb: Seq<u8>|
                        {
                            &&& spec_frame(old(stream).to_server.unread()) == Some(
                                (pb, final(stream).to_server.unread()),
                            )
                            &&& spec_scert_dec(pb) is None
                        },
                    _ => false,
                }
            },
        },
{
    if !server_ctx.first {
        return Ok(());
    }
    let pin_bytes = match read_bytes_stream(&mut stream.to_server) {
        Ok(m) => m,
        Err(e) => { return Err(e) },
    };
    let pin = match SignedCertificate::decode(&pin_bytes) {
        Ok(c) => c,
        Err(e) => { return Err(e) },
    };
    let ghost pin_snapshot = pin@;
    let id = server_ctx.id;
    server_ctx.cache.insert(id, pin);
    Ok(())
}

/// Three framed signed certificates at the front of `b`, with the
/// remaining bytes.
pub open spec fn spec_recv3(b: Seq<u8>) -> Option<
    (SignedCertView, SignedCertView, SignedCertView, Seq<u8>),
> {
    match spec_frame(b) {
        Some((c0b, b1)) => match spec_scert_dec(c0b) {
            Some(c0) => match spec_frame(b1) {
                Some((c1b, b2)) => match spec_scert_dec(c1b) {
                    Some(c1) => match spec_frame(b2) {
                        Some((c2b, b3)) => match spec_scert_dec(c2b) {
                            Some(c2) => Some((c0, c1, c2, b3)),
                            None => None,
                        },
                        None => None,
                    },
                    None => None,
                },
                None => None,
            },
            None => None,
        },
        None => None,
    }
}

/// The repeat-connection client decision as a function of the client's
/// own public key and the unread server-to-client bytes: one cached
/// certificate is checked against `pk_self`, then the transcript
/// signature against the end-entity key the certificate pins.
pub open spec fn spec_cached_verify<S: SigningScheme>(pk_self: Seq<u8>, b: Seq<u8>) -> Option<
    (bool, Seq<u8>),
> {
    match spec_frame(b) {
        Some((cb, b1)) => match spec_scert_dec(cb) {
            Some(c) => if !S::spec_sig_wf(c.sig) {
                None
            } else if !S::spec_sig_ok(pk_self, spec_cert_enc(c.cert), c.sig) {
                Some((false, b1))
            } else {
                match spec_frame(b1) {
                    Some((t, b2)) => if S::spec_pk_wf(c.cert.subject_pk) && S::spec_sig_wf(t) {
                        Some(
                            (
                                S::spec_sig_ok(
                                    c.cert.subject_pk,
                                    spec_transcript_marker() + spec_scert_enc(c),
                                    t,
                                ),
                                b2,
                            ),
                        )
                    } else {
                        None
                    },
                    None => None,
                }
            },
            None => None,
        },
        None => None,
    }
}

/// The pinning certificate the client issues for the end-entity key
/// `pk`, before signing: issuer `"client"`, subject `"end-entity"`.
pub open spec fn spec_pin_cert(pk: Seq<u8>) -> CertView {
    (CertView {
        issuer_name: spec_name_client(),
        subject_name: spec_name_end_entity(),
        subject_pk: pk,
    })
}

/// Step 4: the client verifies what the server delivered.
///
/// On a first connection this is the baseline check (three certificates
/// against the static root key, then the transcript signature), and on
/// success the client additionally issues, signs and sends its pinning
/// certificate for the received end-entity key and clears its `first`
/// flag.  On a repeat connection the single received certificate is
/// checked against the client's own public key `pk_self` — the cached
/// certificate was issued by this client, so this is a self-consistency
/// check — and then the transcript signature against the end-entity key
/// the certificate pins.
#[verifier::rlimit(100)]
#[verifier::spinoff_prover]
pub fn client_verify<S: SigningScheme>(client_ctx: &mut ClientCtx<S>, stream: &mut Duplex) -> (r:
    Result<bool, ProtoError>)
    requires
        old(stream).wf(),
        old(client_ctx).wf(),
    ensures
        final(stream).wf(),
        final(client_ctx).wf(),
        final(client_ctx).pk_root == old(client_ctx).pk_root,
        final(client_ctx).pk_self == old(client_ctx).pk_self,
        final(client_ctx).sk_self == old(client_ctx).sk_self,
        final(client_ctx).id == old(client_ctx).id,
        final(stream).to_client.written() == old(stream).to_client.written(),
        match r {
            Ok(v) => if old(client_ctx).first {
                &&& crate::handshake::spec_baseline_verify::<S>(
                    old(client_ctx).pk_root@,
                    old(stream).to_client.unread(),
                ) == Some((v, final(stream).to_client.unread()))
                &&& final(client_ctx).first == !v
                &&& if v {
                    &&& spec_recv3(old(stream).to_client.unread()) is Some
                    &&& exists|ts: Seq<u8>|
                        {
                            let c0 = spec_recv3(old(stream).to_client.unread())->Some_0.0;
                            let pin = (SignedCertView {
                                cert: spec_pin_cert(c0.cert.subject_pk),
                                sig: ts,
                            });
                            &&& final(stream).to_server.unread() == old(
                                stream,
                            ).to_server.unread() + len_prefixed(spec_scert_enc(pin))
                            &&& #[trigger] S::spec_sig_wf(ts)
                            &&& spec_scert_enc(pin).len() < pow256(8)
                            &&& forall|pk: Seq<u8>|
                                S::spec_keypair(old(client_ctx).sk_self@, pk) ==> S::spec_sig_ok(
                                    pk,
                                    spec_cert_enc(pin.cert),
                                    ts,
                                )
                        }
                } else {
                    final(stream).to_server == old(stream).to_server
                }
            } else {
                &&& spec_cached_verify::<S>(
                    old(client_ctx).pk_self@,
                    old(stream).to_client.unread(),
                ) == Some((v, final(stream).to_client.unread()))
                &&& final(client_ctx).first == false
                &&& final(stream).to_server == old(stream).to_server
            },
            Err(e) => {
                &&& if old(client_ctx).first {
                    crate::handshake::spec_baseline_verify::<S>(
                        old(client_ctx).pk_root@,
                        old(stream).to_client.unread(),
                    ) is None
                } else {
                    spec_cached_verify::<S>(
                        old(client_ctx).pk_self@,
                        old(stream).to_client.unread(),
                    ) is None
                }
                &&& (e == ProtoError::Truncated || e == ProtoError::DecodeFailed)
                &&& final(stream).to_server == old(stream).to_server
                &&& final(client_ctx).first == old(client_ctx).first
            },
        },
{
    if client_ctx.first {
        let c0b = match read_bytes_stream(&mut stream.to_client) {
            Ok(m) => m,
            Err(e) => { return Err(e) },
        };
        let c0 = match SignedCertificate::decode(&c0b) {
            Ok(c) => c,
            Err(e) => { return Err(e) },
        };
        let c1b = match read_bytes_stream(&mut stream.to_client) {
            Ok(m) => m,
            Err(e) => { return Err(e) },
        };
        let c1 = match SignedCertificate::decode(&c1b) {
            Ok(c) => c,
            Err(e) => { return Err(e) },
        };
        let c2b = match read_bytes_stream(&mut stream.to_client) {
            Ok(m) => m,
            Err(e) => { return Err(e) },
        };
        let c2 = match SignedCertificate::decode(&c2b) {
            Ok(c) => c,
            Err(e) => { return Err(e) },
        };
        if !S::sig_wf(&c2.signature) {
            return Err(ProtoError::DecodeFailed);
        }
        let c2_cert_bytes = c2.certificate.to_bytes();
        let root_ok = client_ctx.scheme.verify(
            &client_ctx.pk_root,
            &c2_cert_bytes,
            &c2.signature,
        );
        if !root_ok {
            return Ok(false);
        }
        let t = match read_bytes_stream(&mut stream.to_client) {
            Ok(m) => m,
            Err(e) => { return Err(e) },
        };
        if !S::pk_wf(&c0.certificate.subject_pk) || !S::sig_wf(&t) {
            return Err(ProtoError::DecodeFailed);
        }
        let mut msg = transcript_marker();
        let e0 = c0.to_bytes();
        append_bytes(&mut msg, &e0);
        let e1 = c1.to_bytes();
        append_bytes(&mut msg, &e1);
        let e2 = c2.to_bytes();
        append_bytes(&mut msg, &e2);
        proof {
            assert(msg@ =~= spec_transcript_marker() + spec_scert_enc(c0@) + spec_scert_enc(c1@)
                + spec_scert_enc(c2@));
        }
        let ok = client_ctx.scheme.verify(&c0.certificate.subject_pk, &msg, &t);
        if !ok {
            return Ok(false);
        }
        let pin_cert = Certificate {
            issuer_name: name_client(),
            subject_name: name_end_entity(),
            subject_pk: copy_bytes(&c0.certificate.subject_pk),
        };
        let pin = pin_cert.sign(&mut client_ctx.scheme, &client_ctx.sk_self);
        let pb = pin.to_bytes();
        write_bytes_stream(&mut stream.to_server, &pb);
        client_ctx.first = false;
        proof {
            crate::encoding::lemma_pow256_8_value();
            assert(vstd::std_specs::vec::spec_vec_len(&pb) == pb@.len());
            let c0v = spec_recv3(old(stream).to_client.unread())->Some_0.0;
            assert(pin@.cert == spec_pin_cert(c0v.cert.subject_pk));
            assert({
                let pinv = (SignedCertView {
                    cert: spec_pin_cert(c0v.cert.subject_pk),
                    sig: pin@.sig,
                });
                &&& stream.to_server.unread() == old(stream).to_server.unread() + len_prefixed(
                    spec_scert_enc(pinv),
                )
                &&& S::spec_sig_wf(pin@.sig)
                &&& spec_scert_enc(pinv).len() < pow256(8)
                &&& forall|pk: Seq<u8>|
                    S::spec_keypair(old(client_ctx).sk_self@, pk) ==> S::spec_sig_ok(
                        pk,
                        spec_cert_enc(pinv.cert),
                        pin@.sig,
                    )
            });
        }
        Ok(true)
    } else {
        let cb = match read_bytes_stream(&mut stream.to_client) {
            Ok(m) => m,
            Err(e) => { return Err(e) },
        };
        let c = match SignedCertificate::decode(&cb) {
            Ok(c) => c,
            Err(e) => { return Err(e) },
        };
        if !S::sig_wf(&c.signature) {
            return Err(ProtoError::DecodeFailed);
        }
        let c_cert_bytes = c.certificate.to_bytes();
        let self_ok = client_ctx.scheme.verify(&client_ctx.pk_self, &c_cert_bytes, &c.signature);
        if !self_ok {
            return Ok(false);
        }
        let t = match read_bytes_stream(&mut stream.to_client) {
            Ok(m) => m,
            Err(e) => { return Err(e) },
        };
        if !S::pk_wf(&c.certificate.subject_pk) || !S::sig_wf(&t) {
            return Err(ProtoError::DecodeFailed);
        }
        let mut msg = transcript_marker();
        let ec = c.to_bytes();
        append_bytes(&mut msg, &ec);
        proof {
            assert(msg@ =~= spec_transcript_marker() + spec_scert_enc(c@));
        }
        let ok = client_ctx.scheme.verify(&c.certificate.subject_pk, &msg, &t);
        Ok(ok)
    }
}

/// The caching handshake variant, generic over the signing capability
/// that stands in for the post-quantum scheme.
pub struct PqcWithCachingTls<S: SigningScheme> {
    _scheme: core::marker::PhantomData<S>,
}

/// An honestly provisioned caching session: both contexts well-formed,
/// the server's chain verifiable against the client's root key, and the
/// client's own key pair consistent.
pub open spec fn caching_honest_pair<S: SigningScheme>(
    cx: ClientCtx<S>,
    sx: ServerCtx<S>,
) -> bool {
    &&& cx.wf()
    &&& sx.wf()
    &&& exists|sk_root: Seq<u8>|
        spec_chain_ok::<S>(chain_views(sx.cert_chain@), cx.pk_root@, sk_root, sx.sk_end@)
}

impl<S: SigningScheme> PqcWithCachingTls<S> {
    /// Build one session's pair of contexts: run the chain builder once
    /// with `chain_scheme`, generate the client's own long-lived key pair
    /// with the client's instance, and start both roles in first-connection
    /// state with an empty cache.
    pub fn new(mut chain_scheme: S, mut client_scheme: S, server_scheme: S) -> (r: (
        ClientCtx<S>,
        ServerCtx<S>,
    ))
        ensures
            caching_honest_pair(r.0, r.1),
            r.0.first == true,
            r.1.first == true,
            r.0.id == 1,
            r.1.cache@ == Map::<u32, SignedCertificate>::empty(),
    {
        let (cert_chain, pk_root, sk_root, sk_end) = make_cert_chain(&mut chain_scheme);
        let (sk_self, pk_self) = client_scheme.keygen();
        let cx = ClientCtx {
            scheme: client_scheme,
            pk_root,
            pk_self,
            sk_self,
            first: true,
            id: 1,
        };
        let sx = ServerCtx {
            scheme: server_scheme,
            cert_chain,
            sk_end,
            cache: HashMap::new(),
            first: true,
            id: 0,
        };
        proof {
            assert(spec_chain_ok::<S>(
                chain_views(sx.cert_chain@),
                cx.pk_root@,
                sk_root@,
                sx.sk_end@,
            ));
        }
        (cx, sx)
    }
}

/// The chain payload followed by one more frame parses as the three
/// chain certificates and leaves that frame.
pub(crate) proof fn lemma_recv3_of_payload(ch: Seq<SignedCertView>, t: Seq<u8>, u: Seq<u8>)
    requires
        ch.len() == 3,
        u == spec_chain_payload(ch) + len_prefixed(t),
        forall|i: int| 0 <= i < 3 ==> spec_scert_enc(#[trigger] ch[i]).len() < pow256(8),
        t.len() < pow256(8),
    ensures
        spec_recv3(u) == Some((ch[0], ch[1], ch[2], len_prefixed(t))),
{
    let e0 = spec_scert_enc(ch[0]);
    let e1 = spec_scert_enc(ch[1]);
    let e2 = spec_scert_enc(ch[2]);
    assert(u =~= len_prefixed(e0) + len_prefixed(e1) + len_prefixed(e2) + len_prefixed(t));
    crate::handshake::lemma_four_frames(e0, e1, e2, t, u);
    crate::cert::lemma_scert_bounded_from_enc(ch[0]);
    crate::cert::lemma_scert_bounded_from_enc(ch[1]);
    crate::cert::lemma_scert_bounded_from_enc(ch[2]);
    crate::cert::lemma_scert_round_trip(ch[0]);
    crate::cert::lemma_scert_round_trip(ch[1]);
    crate::cert::lemma_scert_round_trip(ch[2]);
}

/// What an honest server replays on a repeat connection makes the
/// repeat-connection client decision come out `true` with every byte
/// consumed.
proof fn lemma_cached_verify_accepts<S: SigningScheme>(
    pk_self: Seq<u8>,
    pin: SignedCertView,
    t2: Seq<u8>,
    u2: Seq<u8>,
)
    requires
        u2 == len_prefixed(spec_scert_enc(pin)) + len_prefixed(t2),
        spec_scert_enc(pin).len() < pow256(8),
        t2.len() < pow256(8),
        S::spec_sig_wf(pin.sig),
        S::spec_sig_ok(pk_self, spec_cert_enc(pin.cert), pin.sig),
        S::spec_pk_wf(pin.cert.subject_pk),
        S::spec_sig_wf(t2),
        S::spec_sig_ok(
            pin.cert.subject_pk,
            crate::names::spec_transcript_marker() + spec_scert_enc(pin),
            t2,
        ),
    ensures
        spec_cached_verify::<S>(pk_self, u2) == Some((true, Seq::<u8>::empty())),
{
    let e = spec_scert_enc(pin);
    crate::encoding::lemma_frame_of_prefixed(e, len_prefixed(t2));
    assert(len_prefixed(t2) + Seq::<u8>::empty() =~= len_prefixed(t2));
    crate::encoding::lemma_frame_of_prefixed(t2, Seq::<u8>::empty());
    crate::cert::lemma_scert_bounded_from_enc(pin);
    crate::cert::lemma_scert_round_trip(pin);
}

/// The state a session is in after one successful first connection: the
/// client has cleared its `first` flag, and the server's cache holds,
/// under the client's identifier, a pinning certificate that the client
/// itself signed and that names the key paired with the server's
/// end-entity signing key.
pub open spec fn pinned_session<S: SigningScheme>(cx: ClientCtx<S>, sx: ServerCtx<S>) -> bool {
    &&& cx.wf()
    &&& sx.wf()
    &&& cx.first == false
    &&& sx.cache@.contains_key(cx.id)
    &&& S::spec_sig_wf(sx.cache@[cx.id]@.sig)
    &&& S::spec_sig_ok(
        cx.pk_self@,
        spec_cert_enc(sx.cache@[cx.id]@.cert),
        sx.cache@[cx.id]@.sig,
    )
    &&& S::spec_pk_wf(sx.cache@[cx.id]@.cert.subject_pk)
    &&& S::spec_keypair(sx.sk_end@, sx.cache@[cx.id]@.cert.subject_pk)
}

/// First-connection success: for every signing capability and every
/// honestly provisioned pair of caching contexts, running the five
/// first-connection steps over a fresh duplex pipe ends with the client
/// accepting and the session pinned.
#[verifier::rlimit(100)]
#[verifier::spinoff_prover]
pub fn run_caching_first<S: SigningScheme>(cx: &mut ClientCtx<S>, sx: &mut ServerCtx<S>) -> (r:
    Result<bool, ProtoError>)
    requires
        caching_honest_pair(*old(cx), *old(sx)),
        old(cx).first == true,
    ensures
        r == Ok::<bool, ProtoError>(true),
        pinned_session(*final(cx), *final(sx)),
{
    let ghost ch = chain_views(sx.cert_chain@);
    let ghost sk_rootw = choose|skr: Seq<u8>|
        spec_chain_ok::<S>(chain_views(sx.cert_chain@), cx.pk_root@, skr, sx.sk_end@);
    let ghost sk_end_v = sx.sk_end@;
    let ghost id0 = cx.id;
    let ghost mk = spec_transcript_marker();

    let mut d = Duplex::new();
    client_transcript(cx, &mut d);
    let ghost st1 = spec_status(true, id0);
    let ghost pre_s1 = d.to_server.unread();
    proof {
        crate::encoding::lemma_pow256_8_value();
        crate::encoding::lemma_dec_digits_len_bound(id0 as nat);
        assert(st1.len() < pow256(8));
        assert(pre_s1 =~= len_prefixed(st1) + len_prefixed(mk));
        crate::encoding::lemma_frame_of_prefixed(st1, len_prefixed(mk));
        lemma_status_round_trip(true, id0);
    }
    match server_certificate(sx, &mut d) {
        Ok(_) => {},
        Err(e) => {
            proof {
                assert(false);
            }
            return Err(e);
        },
    }
    let ghost m1 = choose|m: Seq<u8>|
        {
            &&& spec_frame(pre_s1) == Some((m, d.to_server.unread()))
            &&& spec_parse_status(m) == Some((sx.first, sx.id))
            &&& if sx.first {
                &&& d.to_client.unread() == Seq::<u8>::empty() + spec_chain_payload(ch)
                &&& forall|i: int|
                    0 <= i < 3 ==> spec_scert_enc(#[trigger] ch[i]).len() < pow256(8)
            } else {
                &&& old(sx).cache@.contains_key(sx.id)
                &&& d.to_client.unread() == Seq::<u8>::empty() + len_prefixed(
                    spec_scert_enc(old(sx).cache@[sx.id]@),
                )
                &&& spec_scert_enc(old(sx).cache@[sx.id]@).len() < pow256(8)
            }
        };
    proof {
        assert(m1 == st1);
        assert(sx.first == true && sx.id == id0);
        assert(d.to_server.unread() =~= len_prefixed(mk));
        crate::encoding::lemma_frame_of_prefixed(mk, Seq::<u8>::empty());
        assert(len_prefixed(mk) + Seq::<u8>::empty() =~= len_prefixed(mk));
    }
    let ghost pre_s2 = d.to_server.unread();
    let ghost pre_c2 = d.to_client.unread();
    let ghost sx_before_cv = *sx;
    match server_certificate_verify(sx, &mut d) {
        Ok(_) => {},
        Err(e) => {
            proof {
                assert(false);
            }
            return Err(e);
        },
    }
    let ghost (m2, t1) = choose|m: Seq<u8>, t: Seq<u8>|
        {
            &&& spec_frame(pre_s2) == Some((m, d.to_server.unread()))
            &&& d.to_client.unread() == pre_c2 + len_prefixed(t)
            &&& S::spec_sig_wf(t)
            &&& t.len() < pow256(8)
            &&& forall|pk: Seq<u8>|
                S::spec_keypair(sx_before_cv.sk_end@, pk) ==> S::spec_sig_ok(
                    pk,
                    m + spec_cv_payload(sx_before_cv),
                    t,
                )
        };
    let ghost u1 = d.to_client.unread();
    proof {
        assert(m2 == mk);
        assert(d.to_server.unread() =~= Seq::<u8>::empty());
        assert(spec_cv_payload(sx_before_cv) == spec_chain_transcript(ch));
        assert(u1 =~= spec_chain_payload(ch) + len_prefixed(t1));
        assert(forall|pk: Seq<u8>|
            S::spec_keypair(sk_end_v, pk) ==> S::spec_sig_ok(
                pk,
                mk + spec_chain_transcript(ch),
                t1,
            ));
        crate::handshake::lemma_baseline_verify_accepts::<S>(
            cx.pk_root@,
            sk_rootw,
            sk_end_v,
            ch,
            t1,
            u1,
        );
        lemma_recv3_of_payload(ch, t1, u1);
    }
    let ghost pre_s3 = d.to_server.unread();
    let v1 = match client_verify(cx, &mut d) {
        Ok(v) => v,
        Err(e) => {
            proof {
                assert(false);
            }
            return Err(e);
        },
    };
    proof {
        assert(v1 == true);
    }
    let ghost ts = choose|ts: Seq<u8>|
        {
            let c0 = spec_recv3(u1)->Some_0.0;
            let pin = (SignedCertView { cert: spec_pin_cert(c0.cert.subject_pk), sig: ts });
            &&& d.to_server.unread() == pre_s3 + len_prefixed(spec_scert_enc(pin))
            &&& #[trigger] S::spec_sig_wf(ts)
            &&& spec_scert_enc(pin).len() < pow256(8)
            &&& forall|pk: Seq<u8>|
                S::spec_keypair(old(cx).sk_self@, pk) ==> S::spec_sig_ok(
                    pk,
                    spec_cert_enc(pin.cert),
                    ts,
                )
        };
    let ghost pin = (SignedCertView {
        cert: spec_pin_cert(ch[0].cert.subject_pk),
        sig: ts,
    });
    proof {
        assert(spec_recv3(u1)->Some_0.0 == ch[0]);
        assert(d.to_server.unread() =~= len_prefixed(spec_scert_enc(pin)));
        crate::encoding::lemma_frame_of_prefixed(spec_scert_enc(pin), Seq::<u8>::empty());
        assert(len_prefixed(spec_scert_enc(pin)) + Seq::<u8>::empty() =~= len_prefixed(
            spec_scert_enc(pin),
        ));
        crate::cert::lemma_scert_bounded_from_enc(pin);
        crate::cert::lemma_scert_round_trip(pin);
    }
    let ghost pre_s4 = d.to_server.unread();
    let ghost cache_before = sx.cache@;
    match server_store_pin(sx, &mut d) {
        Ok(_) => {},
        Err(e) => {
            proof {
                assert(false);
            }
            return Err(e);
        },
    }
    let ghost stored = choose|pb: Seq<u8>, c: SignedCertificate|
        {
            &&& spec_frame(pre_s4) == Some((pb, d.to_server.unread()))
            &&& spec_scert_dec(pb) == Some(c@)
            &&& sx.cache@ == cache_before.insert(id0, c)
        };
    proof {
        assert(stored.0 == spec_scert_enc(pin));
        assert(stored.1@ == pin);
        assert(sx.cache@.contains_key(id0));
        assert(sx.cache@[id0]@ == pin);
        assert(S::spec_keypair(sx.sk_end@, pin.cert.subject_pk));
        assert(S::spec_sig_ok(cx.pk_self@, spec_cert_enc(pin.cert), pin.sig));
    }
    Ok(v1)
}

/// Repeat-connection success: in a pinned session, running the four
/// repeat-connection steps over a fresh duplex pipe ends with the client
/// accepting again.
#[verifier::rlimit(100)]
#[verifier::spinoff_prover]
pub fn run_caching_repeat<S: SigningScheme>(cx: &mut ClientCtx<S>, sx: &mut ServerCtx<S>) -> (r:
    Result<bool, ProtoError>)
    requires
        pinned_session(*old(cx), *old(sx)),
    ensures
        r == Ok::<bool, ProtoError>(true),
        pinned_session(*final(cx), *final(sx)),
{
    let ghost ch = chain_views(sx.cert_chain@);
    let ghost pin = sx.cache@[cx.id]@;
    let ghost id0 = cx.id;
    let ghost mk = spec_transcript_marker();
    let ghost cache_now = sx.cache@;
    let mut d2 = Duplex::new();
    client_transcript(cx, &mut d2);
    let ghost st2 = spec_status(false, id0);
    let ghost pre2_s1 = d2.to_server.unread();
    proof {
        crate::encoding::lemma_pow256_8_value();
        crate::encoding::lemma_dec_digits_len_bound(id0 as nat);
        assert(cx.first == false && cx.id == id0);
        assert(st2.len() < pow256(8));
        assert(pre2_s1 =~= len_prefixed(st2) + len_prefixed(mk));
        crate::encoding::lemma_frame_of_prefixed(st2, len_prefixed(mk));
        lemma_status_round_trip(false, id0);
    }
    match server_certificate(sx, &mut d2) {
        Ok(_) => {},
        Err(e) => {
            proof {
                assert(false);
            }
            return Err(e);
        },
    }
    let ghost m3 = choose|m: Seq<u8>|
        {
            &&& spec_frame(pre2_s1) == Some((m, d2.to_server.unread()))
            &&& spec_parse_status(m) == Some((sx.first, sx.id))
            &&& if sx.first {
                &&& d2.to_client.unread() == Seq::<u8>::empty() + spec_chain_payload(ch)
                &&& forall|i: int|
                    0 <= i < 3 ==> spec_scert_enc(#[trigger] ch[i]).len() < pow256(8)
            } else {
                &&& cache_now.contains_key(sx.id)
                &&& d2.to_client.unread() == Seq::<u8>::empty() + len_prefixed(
                    spec_scert_enc(cache_now[sx.id]@),
                )
                &&& spec_scert_enc(cache_now[sx.id]@).len() < pow256(8)
            }
        };
    proof {
        assert(m3 == st2);
        assert(sx.first == false && sx.id == id0);
        assert(cache_now[id0]@ == pin);
        assert(d2.to_server.unread() =~= len_prefixed(mk));
        crate::encoding::lemma_frame_of_prefixed(mk, Seq::<u8>::empty());
        assert(len_prefixed(mk) + Seq::<u8>::empty() =~= len_prefixed(mk));
    }
    let ghost pre2_s2 = d2.to_server.unread();
    let ghost pre2_c2 = d2.to_client.unread();
    let ghost sx_before_cv2 = *sx;
    match server_certificate_verify(sx, &mut d2) {
        Ok(_) => {},
        Err(e) => {
            proof {
                assert(false);
            }
            return Err(e);
        },
    }
    let ghost (m4, t2) = choose|m: Seq<u8>, t: Seq<u8>|
        {
            &&& spec_frame(pre2_s2) == Some((m, d2.to_server.unread()))
            &&& d2.to_client.unread() == pre2_c2 + len_prefixed(t)
            &&& S::spec_sig_wf(t)
            &&& t.len() < pow256(8)
            &&& forall|pk: Seq<u8>|
                S::spec_keypair(sx_before_cv2.sk_end@, pk) ==> S::spec_sig_ok(
                    pk,
                    m + spec_cv_payload(sx_before_cv2),
                    t,
                )
        };
    let ghost u2 = d2.to_client.unread();
    proof {
        assert(m4 == mk);
        assert(spec_cv_payload(sx_before_cv2) == spec_scert_enc(pin));
        assert(u2 =~= len_prefixed(spec_scert_enc(pin)) + len_prefixed(t2));
        assert(S::spec_sig_ok(cx.pk_self@, spec_cert_enc(pin.cert), pin.sig));
        assert(S::spec_pk_wf(pin.cert.subject_pk));
        assert(S::spec_sig_ok(pin.cert.subject_pk, mk + spec_scert_enc(pin), t2));
        lemma_cached_verify_accepts::<S>(cx.pk_self@, pin, t2, u2);
    }
    let v2 = match client_verify(cx, &mut d2) {
        Ok(v) => v,
        Err(e) => {
            proof {
                assert(false);
            }
            return Err(e);
        },
    };
    proof {
        assert(v2 == true);
    }
    Ok(v2)
}

/// Caching round trip: for every signing capability and every honestly
/// provisioned pair of caching contexts, a first connection followed by a
/// repeat connection with the same identifier both end with the client
/// accepting, the pin travelling through the server's cache in between.
pub fn run_caching_session<S: SigningScheme>(cx: &mut ClientCtx<S>, sx: &mut ServerCtx<S>) -> (r:
    Result<(bool, bool), ProtoError>)
    requires
        caching_honest_pair(*old(cx), *old(sx)),
        old(cx).first == true,
    ensures
        r == Ok::<(bool, bool), ProtoError>((true, true)),
{
    let v1 = match run_caching_first(cx, sx) {
        Ok(v) => v,
        Err(e) => {
            proof {
                assert(false);
            }
            return Err(e);
        },
    };
    let v2 = match run_caching_repeat(cx, sx) {
        Ok(v) => v,
        Err(e) => {
            proof {
                assert(false);
            }
            return Err(e);
        },
    };
    Ok((v1, v2))
}

} // verus!

