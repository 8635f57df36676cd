use rspaced::coreos::{find_candidates, machine_os_digests};
use rspaced::coreos::{
    arch_matches_filename, check_sidecar, coreos_arch, is_iso_name, is_machine_os, is_release_record_name,
    iso_file_name, iso_search_paths, join_path, no_candidates_error, oci_arch, release_label, release_matches,
    release_order, select_iso, IsoCandidate, IsoError, IsoSelector,
};
use rspaced::provenance::{digest_hex, ComponentProvenance, ImageProvenance, LayerProvenance, ReleaseProvenance};

fn release(version: &str, arch: &str, manifest_hex: &str) -> ReleaseProvenance {
    let kernel_arch = coreos_arch(arch);
    ReleaseProvenance {
        release_image: format!("quay.io/openshift-release-dev/ocp-release:{version}-{kernel_arch}"),
        arch: arch.into(),
        os: "linux".into(),
        release_manifest_digest: format!("sha256:rel{version}-{arch}"),
        components: vec![ComponentProvenance {
            name: "machine-os-images".into(),
            image: format!("machine-os-images:{version}"),
            manifest_digest: Some(format!("sha256:{manifest_hex}")),
            error: None,
        }],
    }
}

fn candidate(iso: &str, rel: &ReleaseProvenance) -> IsoCandidate {
    IsoCandidate { iso: iso.to_string(), release: Some(release_label(rel)) }
}

#[test]
fn arch_spellings_normalize() {
    assert_eq!(coreos_arch("amd64"), "x86_64");
    assert_eq!(coreos_arch("arm64"), "aarch64");
    assert_eq!(coreos_arch("riscv64"), "riscv64");
    assert_eq!(oci_arch("x86_64"), "amd64");
    assert_eq!(oci_arch("amd64"), "amd64");
    assert_eq!(digest_hex("sha256:abc"), "abc");
    assert_eq!(digest_hex("abc"), "abc");
}

#[test]
fn multiple_releases_are_ambiguous_without_a_selector() {
    let old = release("4.18.30", "amd64", "aaa111");
    let new = release("4.19.02", "amd64", "bbb222");
    let releases = vec![old.clone(), new.clone()];
    let sel = IsoSelector::default();
    assert!(release_matches(&old, &sel) && release_matches(&new, &sel));
    let candidates = vec![
        candidate("store/extracted/bbb222/coreos/coreos-x86_64.iso", &new),
        candidate("store/extracted/aaa111/coreos/coreos-x86_64.iso", &old),
    ];
    match select_iso(&candidates, &releases, &sel) {
        Err(IsoError::Ambiguous { candidates: listed }) => {
            assert_eq!(listed.len(), 2);
            assert_eq!(listed[0].iso, "store/extracted/aaa111/coreos/coreos-x86_64.iso");
            assert_eq!(listed[1].iso, "store/extracted/bbb222/coreos/coreos-x86_64.iso");
        }
        other => panic!("unexpected error: {other:?}"),
    }
}

#[test]
fn unmatched_selection_lists_available_releases() {
    let rel = release("4.18.30", "amd64", "aaa111");
    let releases = vec![rel.clone()];
    let sel = IsoSelector { release: Some("9.99.99".into()), arch: None };
    assert!(!release_matches(&rel, &sel));
    match select_iso(&vec![], &releases, &sel) {
        Err(IsoError::NoMatch { release, arch, available }) => {
            assert_eq!(release.as_deref(), Some("9.99.99"));
            assert!(arch.is_none());
            assert_eq!(available.len(), 1);
            assert!(available[0].contains("4.18.30"), "should list what is available: {available:?}");
        }
        other => panic!("unexpected error: {other:?}"),
    }
}

#[test]
fn empty_store_reports_nothing() {
    assert!(matches!(no_candidates_error(&vec![], &IsoSelector::default()), IsoError::NothingInStore));
}

#[test]
fn same_path_from_two_releases_counts_once() {
    let a = release("4.18.30", "amd64", "aaa111");
    let b = release("4.18.30-rc", "amd64", "aaa111");
    let path = "store/extracted/aaa111/coreos/coreos-x86_64.iso";
    let chosen = select_iso(&vec![candidate(path, &a), candidate(path, &b)], &vec![a.clone(), b], &IsoSelector::default())
        .unwrap();
    assert_eq!(chosen.iso, path);
    assert_eq!(chosen.release, Some(release_label(&a)));
}

#[test]
fn selectors_match_by_release_text_digest_or_either_arch_spelling() {
    let rel = release("4.18.30", "amd64", "aaa111");
    assert!(release_matches(&rel, &IsoSelector { release: Some("4.18.30".into()), arch: None }));
    assert!(release_matches(&rel, &IsoSelector { release: Some("rel4.18".into()), arch: None }));
    assert!(release_matches(&rel, &IsoSelector { release: None, arch: Some("x86_64".into()) }));
    assert!(release_matches(&rel, &IsoSelector { release: None, arch: Some("amd64".into()) }));
    assert!(!release_matches(&rel, &IsoSelector { release: None, arch: Some("arm64".into()) }));
    assert_eq!(
        release_label(&rel),
        "quay.io/openshift-release-dev/ocp-release:4.18.30-x86_64 (amd64)"
    );
}

#[test]
fn iso_names_and_paths() {
    assert_eq!(iso_file_name("amd64"), "coreos-x86_64.iso");
    assert!(is_machine_os("machine-os-images"));
    assert!(!is_machine_os("installer"));
    assert!(arch_matches_filename(Some("coreos-x86_64.iso"), Some("amd64")));
    assert!(arch_matches_filename(Some("coreos-x86_64.iso"), Some("x86_64")));
    assert!(!arch_matches_filename(Some("coreos-aarch64.iso"), Some("x86_64")));
    assert!(arch_matches_filename(None, None));
    assert!(!arch_matches_filename(None, Some("x86_64")));
    assert_eq!(join_path("store", "extracted"), "store/extracted");
    assert_eq!(join_path("store/", "x"), "store/x");
    assert_eq!(join_path("store", "/abs"), "/abs");
    assert!(is_release_record_name("release-abc.json"));
    assert!(!is_release_record_name("images"));
    assert!(is_iso_name("coreos-x86_64.iso"));
    assert!(!is_iso_name("coreos-x86_64.iso.sha256"));
}

#[test]
fn iso_search_goes_topmost_layer_first() {
    let layer = |hex: &str| LayerProvenance {
        compressed_digest: format!("sha256:{hex}"),
        diff_id: None,
        diff_id_verified: false,
        verity_root: "deadbeef".into(),
        dir: format!("extracted/{hex}"),
        entries: 1,
        whiteouts: 0,
    };
    let prov = ImageProvenance {
        image: "machine-os-images:4.18.30".into(),
        arch: "amd64".into(),
        os: "linux".into(),
        index_digest: None,
        manifest_digest: "sha256:m".into(),
        config_digest: "sha256:cfg".into(),
        layers: vec![layer("base"), layer("top")],
    };
    assert_eq!(
        iso_search_paths("store", &prov, "coreos-x86_64.iso"),
        vec!["store/extracted/top/coreos/coreos-x86_64.iso", "store/extracted/base/coreos/coreos-x86_64.iso"]
    );
}

#[test]
fn sidecar_checks() {
    let sha = "a".repeat(64);
    assert!(check_sidecar(&sha, &format!("{}  coreos-x86_64.iso\n", "A".repeat(64))).is_ok());
    assert!(check_sidecar(&sha, "   \n").is_ok());
    match check_sidecar(&sha, &format!("{}  coreos-x86_64.iso\n", "0".repeat(64))) {
        Err(IsoError::Sha256Mismatch { have, want }) => {
            assert_eq!(have, sha);
            assert_eq!(want, "0".repeat(64));
        }
        other => panic!("unexpected result: {other:?}"),
    }
}

#[test]
fn releases_are_listed_by_image_stably() {
    let b = release("4.19.02", "amd64", "bbb");
    let a = release("4.18.30", "amd64", "aaa");
    let a2 = release("4.18.30", "amd64", "ccc");
    let order = release_order(&vec![b, a, a2]);
    assert_eq!(order, vec![1, 2, 0]);
}

#[test]
fn candidates_come_through_matching_releases_or_the_scan() {
    let a = release("4.18.30", "amd64", "aaa111");
    let b = release("4.19.02", "arm64", "bbb222");
    assert_eq!(machine_os_digests(&a), vec!["sha256:aaa111"]);
    let found = vec![
        (a.clone(), vec!["store/extracted/aaa111/coreos/coreos-x86_64.iso".to_string()]),
        (b.clone(), vec!["store/extracted/bbb222/coreos/coreos-aarch64.iso".to_string()]),
    ];
    let sel = IsoSelector { release: None, arch: Some("x86_64".into()) };
    let c = find_candidates(&found, &vec![], &sel);
    assert_eq!(c.len(), 1);
    assert_eq!(c[0].iso, "store/extracted/aaa111/coreos/coreos-x86_64.iso");
    assert_eq!(c[0].release, Some(release_label(&a)));

    let scanned = vec![
        ("store/extracted/ccc333/coreos/coreos-x86_64.iso".to_string(), Some("coreos-x86_64.iso".to_string())),
        ("store/extracted/ddd444/coreos/coreos-aarch64.iso".to_string(), Some("coreos-aarch64.iso".to_string())),
    ];
    let c2 = find_candidates(&vec![], &scanned, &sel);
    assert_eq!(c2.len(), 1);
    assert_eq!(c2[0].iso, "store/extracted/ccc333/coreos/coreos-x86_64.iso");
    assert!(c2[0].release.is_none());
    assert_eq!(find_candidates(&vec![], &scanned, &IsoSelector::default()).len(), 2);
}

#[test]
fn candidates_are_listed_by_path_once_each() {
    let a = release("4.19.02", "amd64", "aaa111");
    let b = release("4.18.30", "amd64", "aaa111");
    let found = vec![
        (a.clone(), vec!["store/extracted/bbb/coreos/coreos-x86_64.iso".to_string(), "store/extracted/aaa/coreos/coreos-x86_64.iso".to_string()]),
        (b.clone(), vec!["store/extracted/aaa/coreos/coreos-x86_64.iso".to_string()]),
    ];
    let c = find_candidates(&found, &vec![], &IsoSelector::default());
    assert_eq!(c.len(), 2);
    assert_eq!(c[0].iso, "store/extracted/aaa/coreos/coreos-x86_64.iso");
    assert_eq!(c[0].release, Some(release_label(&a)));
    assert_eq!(c[1].iso, "store/extracted/bbb/coreos/coreos-x86_64.iso");
}
