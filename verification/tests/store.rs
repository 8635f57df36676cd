use rspaced::auth::{credentials_of, decode_basic, load_credentials, AuthEntry};
use rspaced::digest::Digest;
use rspaced::store::{blob_path, BlobStore, StoreError, VerifyReport};

#[test]
fn store_paths_and_digest_check() {
    let store = BlobStore::at("store");
    let d = Digest::from_bytes(b"hello");
    let path = store.put_bytes(&d, b"hello").unwrap();
    assert_eq!(path, format!("store/blobs/sha256/{}", d.hex()));
    assert_eq!(store.path_for(&d), path);
    assert_eq!(blob_path("store", &d.0), path);
    match store.put_bytes(&d, b"world") {
        Err(StoreError::DigestMismatch { expected, actual }) => {
            assert_eq!(expected, d.0);
            assert_eq!(actual, Digest::from_bytes(b"world").0);
        }
        other => panic!("unexpected result: {other:?}"),
    }
    assert_eq!(blob_path("store", "abc"), "store/blobs/sha256/abc");
}

#[test]
fn verify_report_counts() {
    let mut rep = VerifyReport::default();
    assert!(rep.ok());
    rep.record_blob("sha256:abc", Ok("ABC".into()));
    assert_eq!(rep.blobs_ok, 1);
    rep.record_blob("sha256:abc", Ok("abd".into()));
    rep.record_blob("sha256:abc", Err("missing".into()));
    assert_eq!(rep.blobs_fail, 2);
    assert_eq!(rep.failures, vec!["blob sha256:abc: have abd, want abc", "blob sha256:abc: missing"]);
    assert!(!rep.ok());
    let mut rep2 = VerifyReport::default();
    rep2.record_verity("extracted/x", "root", Ok("root".into()));
    assert!(rep2.ok());
    rep2.record_verity("extracted/x", "root", Ok("other".into()));
    assert_eq!(rep2.failures, vec!["verity extracted/x: have other, want root"]);
    assert_eq!((rep2.verity_ok, rep2.verity_fail), (1, 1));
}

#[test]
fn docker_config_credentials() {
    // base64("user:pa:ss")
    assert_eq!(decode_basic(" dXNlcjpwYTpzcw== "), Some(("user".to_string(), "pa:ss".to_string())));
    // base64("nocolon")
    assert_eq!(decode_basic("bm9jb2xvbg=="), None);
    assert_eq!(decode_basic("!!!"), None);
    let fallback = AuthEntry { auth: Some("!!!".into()), username: Some("u".into()), password: Some("p".into()) };
    assert_eq!(credentials_of(&fallback), Some(("u".to_string(), "p".to_string())));
    let partial = AuthEntry { auth: None, username: Some("u".into()), password: None };
    assert_eq!(credentials_of(&partial), None);
    let auths = vec![
        ("quay.io".to_string(), AuthEntry { auth: Some("dXNlcjpwYTpzcw==".into()), username: None, password: None }),
        ("none.io".to_string(), partial),
        ("r.io".to_string(), fallback),
    ];
    let creds = load_credentials(&auths);
    assert_eq!(
        creds,
        vec![
            ("quay.io".to_string(), ("user".to_string(), "pa:ss".to_string())),
            ("r.io".to_string(), ("u".to_string(), "p".to_string())),
        ]
    );
}

#[test]
fn an_accepted_blob_verifies_at_rest() {
    let store = BlobStore::at("/srv/store");
    let d = Digest::from_bytes(b"layer bytes");
    assert!(store.put_bytes(&d, b"layer bytes").is_ok());
    let mut h = rspaced::digest::ContentHasher::new();
    h.update(b"layer bytes");
    let mut rep = VerifyReport::default();
    rep.record_blob(&d.0, Ok(h.hex()));
    assert_eq!((rep.blobs_ok, rep.blobs_fail), (1, 0));
    assert!(rep.ok());
}
