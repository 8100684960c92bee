use pqsign::cert::SignedCertificate;
use pqsign::chain::make_cert_chain;
use pqsign::eddsa::Eddsa;
use pqsign::error::ProtoError;
use pqsign::handshake::{
    client_transcript, client_verify, run_baseline_handshake, server_certificate,
    server_certificate_verify,
};
use pqsign::plain::PlainTls;
use pqsign::pqc::PqcTls;
use pqsign::signing_scheme::{SigningScheme, ToBytes};
use pqsign::stream::{read_bytes_stream, write_bytes_stream, Duplex};

#[test]
fn plain_baseline_succeeds() {
    let (mut cx, mut sx) = PlainTls::new();
    let mut d = Duplex::new();
    client_transcript(&mut cx, &mut d);
    server_certificate(&mut sx, &mut d);
    server_certificate_verify(&mut sx, &mut d).unwrap();
    assert_eq!(client_verify(&mut cx, &mut d), Ok(true));
}

#[test]
fn baseline_theorem_runner_succeeds() {
    let (mut cx, mut sx) = PlainTls::new();
    assert_eq!(run_baseline_handshake(&mut cx, &mut sx), Ok(true));
}

#[test]
fn pqc_variant_baseline_succeeds() {
    let (mut cx, mut sx) = PqcTls::<Eddsa>::new(Eddsa, Eddsa, Eddsa);
    let mut d = Duplex::new();
    client_transcript(&mut cx, &mut d);
    server_certificate(&mut sx, &mut d);
    server_certificate_verify(&mut sx, &mut d).unwrap();
    assert_eq!(client_verify(&mut cx, &mut d), Ok(true));
}

#[test]
fn chain_is_three_links_with_verifiable_root() {
    let mut scheme = Eddsa;
    let (chain, pk_root, _sk_root, _sk_end) = make_cert_chain(&mut scheme);
    assert_eq!(chain.len(), 3);
    assert_eq!(chain[0].certificate.issuer_name, b"intermediate-ca".to_vec());
    assert_eq!(chain[0].certificate.subject_name, b"end-entity".to_vec());
    assert_eq!(chain[1].certificate.issuer_name, b"root-ca".to_vec());
    assert_eq!(chain[1].certificate.subject_name, b"intermediate-ca".to_vec());
    assert_eq!(chain[2].certificate.issuer_name, b"self-signed".to_vec());
    assert_eq!(chain[2].certificate.subject_name, b"root-ca".to_vec());
    assert_eq!(chain[2].certificate.subject_pk, pk_root);

    // The root certificate is self-signed and verifiable against the
    // returned root key.
    let root_bytes = chain[2].certificate.to_bytes();
    assert!(scheme.verify(&pk_root, &root_bytes, &chain[2].signature));

    // Each lower link verifies against the key embedded one level up,
    // given that the root is trusted.
    let int_bytes = chain[1].certificate.to_bytes();
    assert!(scheme.verify(&chain[2].certificate.subject_pk, &int_bytes, &chain[1].signature));
    let end_bytes = chain[0].certificate.to_bytes();
    assert!(scheme.verify(&chain[1].certificate.subject_pk, &end_bytes, &chain[0].signature));
}

/// Run the honest server against a fresh client, but let the test relay
/// the server-to-client bytes so it can tamper with them on the way.
fn relayed_frames() -> (pqsign::plain::ClientCtx, Vec<Vec<u8>>) {
    let (mut cx, mut sx) = PlainTls::new();
    let mut d = Duplex::new();
    client_transcript(&mut cx, &mut d);
    server_certificate(&mut sx, &mut d);
    server_certificate_verify(&mut sx, &mut d).unwrap();
    let mut frames = Vec::new();
    for _ in 0..4 {
        frames.push(read_bytes_stream(&mut d.to_client).unwrap());
    }
    (cx, frames)
}

fn deliver(cx: &mut pqsign::plain::ClientCtx, frames: &[Vec<u8>]) -> Result<bool, ProtoError> {
    let mut d = Duplex::new();
    for f in frames {
        write_bytes_stream(&mut d.to_client, f);
    }
    client_verify(cx, &mut d)
}

#[test]
fn untampered_relay_still_succeeds() {
    let (mut cx, frames) = relayed_frames();
    assert_eq!(deliver(&mut cx, &frames), Ok(true));
}

#[test]
fn tampered_end_entity_key_is_rejected() {
    let (mut cx, mut frames) = relayed_frames();
    let mut sc = SignedCertificate::decode(&frames[0]).unwrap();
    sc.certificate.subject_pk[0] ^= 0x01;
    frames[0] = sc.to_bytes();
    assert_eq!(deliver(&mut cx, &frames), Ok(false));
}

#[test]
fn tampered_root_certificate_is_rejected() {
    let (mut cx, mut frames) = relayed_frames();
    let mut sc = SignedCertificate::decode(&frames[2]).unwrap();
    sc.certificate.subject_name[0] ^= 0x80;
    frames[2] = sc.to_bytes();
    assert_eq!(deliver(&mut cx, &frames), Ok(false));
}

#[test]
fn tampered_intermediate_certificate_is_rejected() {
    let (mut cx, mut frames) = relayed_frames();
    let mut sc = SignedCertificate::decode(&frames[1]).unwrap();
    sc.certificate.subject_pk[3] ^= 0x10;
    frames[1] = sc.to_bytes();
    assert_eq!(deliver(&mut cx, &frames), Ok(false));
}

#[test]
fn tampered_certificate_verify_signature_is_rejected() {
    let (mut cx, mut frames) = relayed_frames();
    frames[3][10] ^= 0x01;
    assert_eq!(deliver(&mut cx, &frames), Ok(false));
}

#[test]
fn truncated_stream_is_a_fatal_error_not_a_panic() {
    let (mut cx, frames) = relayed_frames();
    assert_eq!(deliver(&mut cx, &frames[..2]), Err(ProtoError::Truncated));
}

#[test]
fn garbled_certificate_frame_is_a_fatal_error() {
    let (mut cx, mut frames) = relayed_frames();
    frames[0] = b"not a certificate".to_vec();
    assert_eq!(deliver(&mut cx, &frames), Err(ProtoError::DecodeFailed));
}

#[test]
fn eddsa_sign_verify_round_trip() {
    let mut scheme = Eddsa;
    let (sk, pk) = scheme.keygen();
    assert_eq!(sk.len(), 32);
    assert_eq!(pk.len(), 32);
    let msg = b"attested bytes".to_vec();
    let sig = scheme.sign(&sk, &msg);
    assert_eq!(sig.len(), 64);
    assert!(scheme.verify(&pk, &msg, &sig));
    let other = b"attested bytez".to_vec();
    assert!(!scheme.verify(&pk, &other, &sig));
    let (_, other_pk) = scheme.keygen();
    assert!(!scheme.verify(&other_pk, &msg, &sig));
}
