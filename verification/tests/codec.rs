use pqsign::cert::{read_bytes, Certificate, SignedCertificate};
use pqsign::encoding::{parse_dec_bytes, u32_to_dec_bytes, u64_to_be_bytes};
use pqsign::error::ProtoError;
use pqsign::signing_scheme::ToBytes;

fn sample_cert() -> Certificate {
    Certificate {
        issuer_name: b"intermediate-ca".to_vec(),
        subject_name: b"end-entity".to_vec(),
        subject_pk: vec![1, 2, 3, 4, 5, 6, 7, 8],
    }
}

#[test]
fn certificate_round_trip() {
    let c = sample_cert();
    let bytes = c.to_bytes();
    let back = Certificate::decode(&bytes).unwrap();
    assert_eq!(back, c);
}

#[test]
fn certificate_round_trip_empty_fields() {
    let c = Certificate { issuer_name: vec![], subject_name: vec![], subject_pk: vec![] };
    let bytes = c.to_bytes();
    let back = Certificate::decode(&bytes).unwrap();
    assert_eq!(back, c);
}

#[test]
fn signed_certificate_round_trip() {
    let sc = SignedCertificate { certificate: sample_cert(), signature: vec![9; 64] };
    let bytes = sc.to_bytes();
    let back = SignedCertificate::decode(&bytes).unwrap();
    assert_eq!(back, sc);
}

#[test]
fn certificate_encoding_layout() {
    let c = Certificate {
        issuer_name: b"ab".to_vec(),
        subject_name: b"c".to_vec(),
        subject_pk: vec![0xff],
    };
    let bytes = c.to_bytes();
    let expected = [
        &[0, 0, 0, 0, 0, 0, 0, 2][..],
        b"ab",
        &[0, 0, 0, 0, 0, 0, 0, 1],
        b"c",
        &[0, 0, 0, 0, 0, 0, 0, 1],
        &[0xff],
    ]
    .concat();
    assert_eq!(bytes, expected);
}

#[test]
fn decode_rejects_truncated() {
    let c = sample_cert();
    let mut bytes = c.to_bytes();
    bytes.pop();
    assert_eq!(Certificate::decode(&bytes), Err(ProtoError::DecodeFailed));
}

#[test]
fn decode_rejects_trailing_bytes() {
    let c = sample_cert();
    let mut bytes = c.to_bytes();
    bytes.push(0);
    assert_eq!(Certificate::decode(&bytes), Err(ProtoError::DecodeFailed));
}

#[test]
fn signed_decode_rejects_truncated() {
    let sc = SignedCertificate { certificate: sample_cert(), signature: vec![7; 10] };
    let mut bytes = sc.to_bytes();
    bytes.truncate(bytes.len() - 3);
    assert_eq!(SignedCertificate::decode(&bytes), Err(ProtoError::DecodeFailed));
}

#[test]
fn u64_big_endian_bytes() {
    assert_eq!(u64_to_be_bytes(0), vec![0; 8]);
    assert_eq!(u64_to_be_bytes(1), vec![0, 0, 0, 0, 0, 0, 0, 1]);
    assert_eq!(
        u64_to_be_bytes(0x0102_0304_0506_0708),
        vec![1, 2, 3, 4, 5, 6, 7, 8]
    );
    assert_eq!(u64_to_be_bytes(u64::MAX), vec![0xff; 8]);
}

#[test]
fn read_bytes_parses_one_field() {
    let mut buf = vec![0, 0, 0, 0, 0, 0, 0, 3];
    buf.extend_from_slice(b"xyz");
    buf.extend_from_slice(&[0, 0, 0, 0, 0, 0, 0, 1, 0x42]);
    let (field, next) = read_bytes(&buf, 0).unwrap();
    assert_eq!(field, b"xyz".to_vec());
    assert_eq!(next, 11);
    let (field2, next2) = read_bytes(&buf, next).unwrap();
    assert_eq!(field2, vec![0x42]);
    assert_eq!(next2, buf.len());
}

#[test]
fn read_bytes_rejects_short_input() {
    let buf = vec![0, 0, 0, 0, 0, 0, 0, 9, 1, 2];
    assert_eq!(read_bytes(&buf, 0), Err(ProtoError::Truncated));
    let short = vec![1, 2, 3];
    assert_eq!(read_bytes(&short, 0), Err(ProtoError::Truncated));
}

#[test]
fn decimal_rendering() {
    assert_eq!(u32_to_dec_bytes(0), b"0".to_vec());
    assert_eq!(u32_to_dec_bytes(7), b"7".to_vec());
    assert_eq!(u32_to_dec_bytes(4017), b"4017".to_vec());
    assert_eq!(u32_to_dec_bytes(u32::MAX), b"4294967295".to_vec());
}

#[test]
fn decimal_parsing() {
    assert_eq!(parse_dec_bytes(&b"0".to_vec(), 0), Some(0));
    assert_eq!(parse_dec_bytes(&b"007".to_vec(), 0), Some(7));
    assert_eq!(parse_dec_bytes(&b"4294967295".to_vec(), 0), Some(u32::MAX));
    assert_eq!(parse_dec_bytes(&b"4294967296".to_vec(), 0), None);
    assert_eq!(parse_dec_bytes(&b"12a".to_vec(), 0), None);
    assert_eq!(parse_dec_bytes(&b"".to_vec(), 0), None);
    assert_eq!(parse_dec_bytes(&b"first 42".to_vec(), 6), Some(42));
}
