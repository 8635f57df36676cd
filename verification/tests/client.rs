use rspaced::client::verify_fetched;
use rspaced::client::{
    choose_token, needs_token_exchange, parse_bearer_challenge, resolve_by_digest, resolve_fetched, token_request,
    ChallengeError, ManifestOrIndex, RawManifest, Reference, ReferenceError, Resolution, ResolveError, TokenField,
};
use rspaced::digest::Digest;
use rspaced::types::{Descriptor, Index, Manifest, Platform};

#[test]
fn parse_tag_ref() {
    let r = Reference::parse("quay.io/openshift-release-dev/ocp-release:4.18.30-x86_64").unwrap();
    assert_eq!(r.registry, "quay.io");
    assert_eq!(r.repository, "openshift-release-dev/ocp-release");
    assert_eq!(r.reference, "4.18.30-x86_64");
    assert_eq!(r.pull_scope(), "repository:openshift-release-dev/ocp-release:pull");
}

#[test]
fn parse_digest_ref() {
    let d = "sha256:".to_string() + &"a".repeat(64);
    let r = Reference::parse(&format!("quay.io/foo/bar@{d}")).unwrap();
    assert_eq!(r.repository, "foo/bar");
    assert_eq!(r.reference, d);
}

#[test]
fn parse_defaults_latest() {
    let r = Reference::parse("registry.gt.lo:5000/team/app").unwrap();
    assert_eq!(r.registry, "registry.gt.lo:5000");
    assert_eq!(r.repository, "team/app");
    assert_eq!(r.reference, "latest");
}

#[test]
fn parse_rejects_a_name_without_registry_host() {
    match Reference::parse("ubuntu:22.04") {
        Err(ReferenceError::NoRegistryHost(s)) => assert_eq!(s, "ubuntu:22.04"),
        other => panic!("unexpected result: {other:?}"),
    }
}

#[test]
fn urls_and_label() {
    let r = Reference::parse("quay.io/foo/bar:v1").unwrap();
    assert_eq!(r.manifest_url(), "https://quay.io/v2/foo/bar/manifests/v1");
    let d = Digest("sha256:abc".to_string());
    assert_eq!(r.blob_url(&d), "https://quay.io/v2/foo/bar/blobs/sha256:abc");
    assert_eq!(r.image_label(), "quay.io/foo/bar:v1");
    let by = r.with_digest(&d);
    assert_eq!(by.reference, "sha256:abc");
    assert_eq!(by.repository, "foo/bar");
}

#[test]
fn challenge_parsing() {
    let h = r#"Bearer realm="https://quay.io/v2/auth",service="quay.io",scope="repository:openshift-release-dev/ocp-release:pull""#;
    let p = parse_bearer_challenge(h).unwrap();
    assert_eq!(p.get("realm").unwrap(), "https://quay.io/v2/auth");
    assert_eq!(p.get("service").unwrap(), "quay.io");
    assert_eq!(p.get("scope").unwrap(), "repository:openshift-release-dev/ocp-release:pull");
}

#[test]
fn challenge_rejects_other_schemes_and_empty_params() {
    assert!(parse_bearer_challenge(r#"Basic realm="x""#).is_none());
    assert!(parse_bearer_challenge("Bearer nothing-here").is_none());
    let p = parse_bearer_challenge(r#"bearer realm="a", realm = "b""#).unwrap();
    assert_eq!(p.get("realm").unwrap(), "b");
}

#[test]
fn token_request_uses_challenge_scope_or_fallback() {
    let t = token_request(r#"Bearer realm="https://r/auth",service="svc""#, "repository:x:pull").unwrap();
    assert_eq!(t.realm, "https://r/auth");
    assert_eq!(t.service.as_deref(), Some("svc"));
    assert_eq!(t.scope, "repository:x:pull");
    let t2 = token_request(r#"Bearer realm="https://r/auth",scope="s""#, "fallback").unwrap();
    assert_eq!(t2.scope, "s");
    assert!(t2.service.is_none());
    assert!(matches!(token_request(r#"Bearer service="svc""#, "f"), Err(ChallengeError::MissingRealm)));
    match token_request("Digest x=y", "f") {
        Err(ChallengeError::Unsupported(c)) => assert_eq!(c, "Digest x=y"),
        other => panic!("unexpected result: {other:?}"),
    }
}

#[test]
fn token_field_choice() {
    assert_eq!(choose_token(TokenField::Text("a".into()), TokenField::Text("b".into())), Some("a".to_string()));
    assert_eq!(choose_token(TokenField::Absent, TokenField::Text("b".into())), Some("b".to_string()));
    assert_eq!(choose_token(TokenField::NotText, TokenField::Text("b".into())), None);
    assert_eq!(choose_token(TokenField::Absent, TokenField::Absent), None);
    assert!(needs_token_exchange(401, true));
    assert!(!needs_token_exchange(401, false));
    assert!(!needs_token_exchange(200, true));
}

#[test]
fn raw_manifest_digest_is_over_the_body() {
    let m = RawManifest::new(b"hello".to_vec(), "application/json".to_string());
    assert_eq!(m.digest.0, "sha256:2cf24dba5fb0a30e26e83b2ac5b9e29e1b161e5c1fa7425e73043362938b9824");
    assert_eq!(m.body, b"hello".to_vec());
}

fn desc(digest: &str, arch: &str) -> Descriptor {
    Descriptor {
        media_type: "application/vnd.oci.image.manifest.v1+json".to_string(),
        digest: Digest(digest.to_string()),
        size: 1,
        urls: vec![],
        annotations: None,
        platform: Some(Platform {
            architecture: arch.to_string(),
            os: "linux".to_string(),
            os_version: None,
            variant: None,
        }),
    }
}

fn manifest() -> Manifest {
    Manifest {
        schema_version: 2,
        media_type: None,
        config: desc("sha256:cfg", "amd64"),
        layers: vec![],
        annotations: None,
    }
}

#[test]
fn resolving_through_an_index_picks_the_platform_entry() {
    let r = Reference::parse("quay.io/foo/bar:v1").unwrap();
    let idx = Index {
        schema_version: 2,
        media_type: None,
        manifests: vec![desc("sha256:arm", "arm64"), desc("sha256:intel", "amd64")],
        annotations: None,
    };
    match resolve_fetched(&r, ManifestOrIndex::Index(idx.clone()), Digest("sha256:idx".into()), "amd64", "linux") {
        Ok(Resolution::ByDigest(by, d)) => {
            assert_eq!(by.reference, "sha256:intel");
            assert_eq!(by.registry, "quay.io");
            assert_eq!(d.0, "sha256:intel");
        }
        other => panic!("unexpected result: {other:?}"),
    }
    assert!(matches!(
        resolve_fetched(&r, ManifestOrIndex::Index(idx), Digest("sha256:idx".into()), "s390x", "linux"),
        Err(ResolveError::NoPlatform)
    ));
    match resolve_fetched(&r, ManifestOrIndex::Manifest(Box::new(manifest())), Digest("sha256:m".into()), "amd64", "linux") {
        Ok(Resolution::Image(_, d)) => assert_eq!(d.0, "sha256:m"),
        other => panic!("unexpected result: {other:?}"),
    }
}

#[test]
fn nested_index_is_refused() {
    let idx = Index { schema_version: 2, media_type: None, manifests: vec![], annotations: None };
    assert!(matches!(
        resolve_by_digest(ManifestOrIndex::Index(idx), Digest("sha256:x".into())),
        Err(ResolveError::NestedIndex)
    ));
    let (_, d) = resolve_by_digest(ManifestOrIndex::Manifest(Box::new(manifest())), Digest("sha256:x".into())).unwrap();
    assert_eq!(d.0, "sha256:x");
}

#[test]
fn a_manifest_fetched_by_digest_must_hash_to_it() {

    let good = Digest::from_bytes(b"{}");
    let raw = RawManifest::new(b"{}".to_vec(), "application/json".into());
    let by_digest = Reference::parse(&format!("quay.io/foo/bar@{}", good.0)).unwrap();
    assert!(verify_fetched(&by_digest, &raw).is_ok());
    let upper = Reference::parse(&format!("quay.io/foo/bar@sha256:{}", good.hex().to_uppercase())).unwrap();
    assert!(verify_fetched(&upper, &raw).is_ok());
    let other = RawManifest::new(b"{\"x\":1}".to_vec(), "application/json".into());
    match verify_fetched(&by_digest, &other) {
        Err(ResolveError::DigestMismatch { requested, actual }) => {
            assert_eq!(requested, good.0);
            assert_eq!(actual, other.digest.0);
        }
        other => panic!("unexpected result: {other:?}"),
    }
    let tagged = Reference::parse("quay.io/foo/bar:v1").unwrap();
    assert!(verify_fetched(&tagged, &other).is_ok());
}
