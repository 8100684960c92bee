use pqsign::clientcache::ClientCachingTls;
use pqsign::eddsa::Eddsa;
use pqsign::error::ProtoError;
use pqsign::pqccache::{parse_status, status_bytes, PqcWithCachingTls};
use pqsign::stream::{read_bytes_stream, write_bytes_stream, Duplex};

#[test]
fn status_messages_round_trip() {
    assert_eq!(status_bytes(true, 7), b"first 7".to_vec());
    assert_eq!(status_bytes(false, 7), b"repeat 7".to_vec());
    assert_eq!(status_bytes(true, 4017), b"first 4017".to_vec());
    assert_eq!(parse_status(&b"first 7".to_vec()), Some((true, 7)));
    assert_eq!(parse_status(&b"repeat 4017".to_vec()), Some((false, 4017)));
}

#[test]
fn malformed_status_messages_are_rejected() {
    assert_eq!(parse_status(&b"hello 7".to_vec()), None);
    assert_eq!(parse_status(&b"first ".to_vec()), None);
    assert_eq!(parse_status(&b"first x".to_vec()), None);
    assert_eq!(parse_status(&b"repeat 4294967296".to_vec()), None);
    assert_eq!(parse_status(&b"".to_vec()), None);
}

#[test]
fn caching_first_and_repeat_connections_succeed() {
    let (mut cx, mut sx) = PqcWithCachingTls::<Eddsa>::new(Eddsa, Eddsa, Eddsa);
    cx.id = 7;

    // First connection: full chain, then the client sends its pinning
    // certificate and the server caches it.
    let mut d1 = Duplex::new();
    pqsign::pqccache::client_transcript(&mut cx, &mut d1);
    pqsign::pqccache::server_certificate(&mut sx, &mut d1).unwrap();
    pqsign::pqccache::server_certificate_verify(&mut sx, &mut d1).unwrap();
    assert_eq!(pqsign::pqccache::client_verify(&mut cx, &mut d1), Ok(true));
    pqsign::pqccache::server_store_pin(&mut sx, &mut d1).unwrap();
    assert!(!cx.first);
    let first_cert_bytes = d1.to_client.bytes_written();

    // Repeat connection with the same identifier: only the cached
    // pinning certificate crosses the wire.
    let mut d2 = Duplex::new();
    pqsign::pqccache::client_transcript(&mut cx, &mut d2);
    pqsign::pqccache::server_certificate(&mut sx, &mut d2).unwrap();
    let repeat_cert_bytes = d2.to_client.bytes_written();
    pqsign::pqccache::server_certificate_verify(&mut sx, &mut d2).unwrap();
    assert_eq!(pqsign::pqccache::client_verify(&mut cx, &mut d2), Ok(true));
    pqsign::pqccache::server_store_pin(&mut sx, &mut d2).unwrap();

    assert!(repeat_cert_bytes < first_cert_bytes);
}

#[test]
fn repeat_connection_transmits_exactly_one_certificate() {
    let (mut cx, mut sx) = PqcWithCachingTls::<Eddsa>::new(Eddsa, Eddsa, Eddsa);
    cx.id = 7;

    let mut d1 = Duplex::new();
    pqsign::pqccache::client_transcript(&mut cx, &mut d1);
    pqsign::pqccache::server_certificate(&mut sx, &mut d1).unwrap();
    pqsign::pqccache::server_certificate_verify(&mut sx, &mut d1).unwrap();
    assert_eq!(pqsign::pqccache::client_verify(&mut cx, &mut d1), Ok(true));
    pqsign::pqccache::server_store_pin(&mut sx, &mut d1).unwrap();

    // Drive only the certificate-delivery step of a repeat connection and
    // count the frames it put on the wire: one certificate, then nothing.
    let mut d2 = Duplex::new();
    pqsign::pqccache::client_transcript(&mut cx, &mut d2);
    pqsign::pqccache::server_certificate(&mut sx, &mut d2).unwrap();
    assert!(read_bytes_stream(&mut d2.to_client).is_ok());
    assert_eq!(read_bytes_stream(&mut d2.to_client), Err(ProtoError::Truncated));
}

#[test]
fn caching_session_runner_succeeds() {
    let (mut cx, mut sx) = PqcWithCachingTls::<Eddsa>::new(Eddsa, Eddsa, Eddsa);
    cx.id = 7;
    assert_eq!(
        pqsign::pqccache::run_caching_session(&mut cx, &mut sx),
        Ok((true, true))
    );
}

#[test]
fn repeat_for_unknown_identifier_fails_with_cache_miss() {
    let (mut cx, mut sx) = PqcWithCachingTls::<Eddsa>::new(Eddsa, Eddsa, Eddsa);
    cx.id = 42;
    cx.first = false;

    let mut d = Duplex::new();
    pqsign::pqccache::client_transcript(&mut cx, &mut d);
    assert_eq!(
        pqsign::pqccache::server_certificate(&mut sx, &mut d),
        Err(ProtoError::CacheMiss)
    );
}

#[test]
fn unexpected_status_word_fails_the_session() {
    let (_cx, mut sx) = PqcWithCachingTls::<Eddsa>::new(Eddsa, Eddsa, Eddsa);
    let mut d = Duplex::new();
    write_bytes_stream(&mut d.to_server, &b"hello 1".to_vec());
    assert_eq!(
        pqsign::pqccache::server_certificate(&mut sx, &mut d),
        Err(ProtoError::BadStatus)
    );
}

#[test]
fn client_caching_first_and_repeat_connections_succeed() {
    let (mut cx, mut sx) = ClientCachingTls::<Eddsa>::new(Eddsa, Eddsa, Eddsa);

    let mut d1 = Duplex::new();
    pqsign::clientcache::client_transcript(&mut cx, &mut d1);
    pqsign::clientcache::server_certificate(&mut sx, &mut d1).unwrap();
    pqsign::clientcache::server_certificate_verify(&mut sx, &mut d1).unwrap();
    assert_eq!(pqsign::clientcache::client_verify(&mut cx, &mut d1), Ok(true));
    assert!(cx.pk_server.is_some());

    // Repeat: the server sends no certificate at all, only the signature.
    let mut d2 = Duplex::new();
    pqsign::clientcache::client_transcript(&mut cx, &mut d2);
    pqsign::clientcache::server_certificate(&mut sx, &mut d2).unwrap();
    assert_eq!(d2.to_client.bytes_written(), 0);
    pqsign::clientcache::server_certificate_verify(&mut sx, &mut d2).unwrap();
    assert_eq!(pqsign::clientcache::client_verify(&mut cx, &mut d2), Ok(true));
}

#[test]
fn client_caching_session_runners_succeed() {
    let (mut cx, mut sx) = ClientCachingTls::<Eddsa>::new(Eddsa, Eddsa, Eddsa);
    assert_eq!(pqsign::clientcache::run_ccache_first(&mut cx, &mut sx), Ok(true));
    assert_eq!(pqsign::clientcache::run_ccache_repeat(&mut cx, &mut sx), Ok(true));
    assert_eq!(pqsign::clientcache::run_ccache_repeat(&mut cx, &mut sx), Ok(true));
}

#[test]
fn client_caching_rejects_bad_status_word() {
    let (_cx, mut sx) = ClientCachingTls::<Eddsa>::new(Eddsa, Eddsa, Eddsa);
    let mut d = Duplex::new();
    write_bytes_stream(&mut d.to_server, &b"again".to_vec());
    assert_eq!(
        pqsign::clientcache::server_certificate(&mut sx, &mut d),
        Err(ProtoError::BadStatus)
    );
}
