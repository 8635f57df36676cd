use rspaced::digest::{ContentHasher, Digest, DigestError, Verifier};

#[test]
fn parts() {
    let d = Digest("sha256:".to_string() + &"a".repeat(64));
    assert_eq!(d.algorithm(), "sha256");
    assert_eq!(d.hex().len(), 64);
    assert_eq!(d.short_hex(), "aaaaaaaaaaaa");
    assert!(d.validate().is_ok());
}

#[test]
fn rejects_bad() {
    assert!(Digest("nope".into()).validate().is_err());
    assert!(Digest("md5:abc".into()).validate().is_err());
    assert!(Digest("sha256:short".into()).validate().is_err());
}

#[test]
fn from_bytes_roundtrip() {
    let d = Digest::from_bytes(b"hello");
    assert!(d.validate().is_ok());
    let mut v = Verifier::new(d).unwrap();
    v.update(b"hello");
    assert!(v.verified());
}

#[test]
fn verifier_detects_mismatch() {
    let d = Digest::from_bytes(b"hello");
    let mut v = Verifier::new(d).unwrap();
    v.update(b"world");
    assert!(!v.verified());
}

#[test]
fn each_validation_error() {
    match Digest("nope".into()).validate() {
        Err(DigestError::Format(s)) => assert_eq!(s, "nope"),
        other => panic!("unexpected result: {other:?}"),
    }
    match Digest("md5:abc".into()).validate() {
        Err(DigestError::Algorithm(a)) => assert_eq!(a, "md5"),
        other => panic!("unexpected result: {other:?}"),
    }
    match Digest("sha256:short".into()).validate() {
        Err(DigestError::Length(n)) => assert_eq!(n, 5),
        other => panic!("unexpected result: {other:?}"),
    }
    assert!(matches!(Digest::parse("sha256:"), Err(DigestError::Format(_))));
}

#[test]
fn from_bytes_is_the_known_sha256() {
    let d = Digest::from_bytes(b"hello");
    assert_eq!(d.0, "sha256:2cf24dba5fb0a30e26e83b2ac5b9e29e1b161e5c1fa7425e73043362938b9824");
    assert_eq!(d.algorithm(), "sha256");
    assert_eq!(d.short_hex(), "2cf24dba5fb0");
    let empty = Digest::from_bytes(b"");
    assert_eq!(empty.hex(), "e3b0c44298fc1c149afbf4c8996fb92427ae41e4649b934ca495991b7852b855");
}

#[test]
fn streaming_in_pieces_equals_whole() {
    let mut h = ContentHasher::new();
    h.update(b"hel");
    h.update(b"lo");
    assert_eq!(h.digest(), Digest::from_bytes(b"hello"));
    let mut h2 = ContentHasher::new();
    h2.update(b"hello");
    assert_eq!(h2.hex(), "2cf24dba5fb0a30e26e83b2ac5b9e29e1b161e5c1fa7425e73043362938b9824");
    let mut v = Verifier::new(Digest::from_bytes(b"hello")).unwrap();
    v.update(b"he");
    v.update(b"llo");
    assert!(v.verified());
}

#[test]
fn verifier_ignores_hex_case_and_rejects_invalid_expected() {
    let upper = format!("sha256:{}", "2CF24DBA5FB0A30E26E83B2AC5B9E29E1B161E5C1FA7425E73043362938B9824");
    let mut v = Verifier::new(Digest(upper)).unwrap();
    v.update(b"hello");
    assert!(v.verified());
    assert!(matches!(Verifier::new(Digest("md5:abc".into())), Err(DigestError::Algorithm(_))));
}

#[test]
fn parse_keeps_valid_text() {
    let s = format!("sha256:{}", "b".repeat(64));
    assert_eq!(Digest::parse(&s).unwrap().0, s);
}

#[test]
fn non_hex_digits_are_rejected() {
    let d = Digest("sha256:".to_string() + &"g".repeat(64));
    match d.validate() {
        Err(DigestError::Format(s)) => assert_eq!(s, d.0),
        other => panic!("unexpected result: {other:?}"),
    }
    assert!(Digest::parse(&("sha256:".to_string() + &"A".repeat(64))).is_ok());
    assert!(Verifier::new(d).is_err());
}
