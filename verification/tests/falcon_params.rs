use pqsign::falcon::{Degree, Falcon};

#[test]
fn falcon_512_buffer_sizes() {
    let f = Falcon { deg: Degree::F512 };
    assert_eq!(f.sk_size(), 1281);
    assert_eq!(f.pk_size(), 897);
    assert_eq!(f.sig_maxsize(), 752);
    assert_eq!(f.tmpsize_keygen(), 15879);
    assert_eq!(f.tmpsize_sign(), 39943);
    assert_eq!(f.tmpsize_verify(), 4097);
}

#[test]
fn falcon_1024_buffer_sizes() {
    let f = Falcon { deg: Degree::F1024 };
    assert_eq!(f.sk_size(), 2305);
    assert_eq!(f.pk_size(), 1793);
    assert_eq!(f.sig_maxsize(), 1462);
    assert_eq!(f.tmpsize_keygen(), 31751);
    assert_eq!(f.tmpsize_sign(), 79879);
    assert_eq!(f.tmpsize_verify(), 8193);
}

#[test]
fn falcon_degree_logarithms() {
    assert_eq!(Degree::F512.logn(), 9);
    assert_eq!(Degree::F1024.logn(), 10);
}
