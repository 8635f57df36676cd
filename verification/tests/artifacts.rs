use rspaced::artifacts::{artifacts, by_role};
use rspaced::stage::{finish_stage, missing_required, staged_artifact, StageError};

#[test]
fn required_set_is_the_boot_trio() {
    let required: Vec<&str> = artifacts().iter().filter(|a| a.required).map(|a| a.role).collect();
    assert_eq!(required, ["kernel", "initramfs", "rootfs"]);
}

#[test]
fn roles_are_unique() {
    let mut roles: Vec<&str> = artifacts().iter().map(|a| a.role).collect();
    let count = roles.len();
    roles.sort_unstable();
    roles.dedup();
    assert_eq!(roles.len(), count, "duplicate role in ARTIFACTS");
}

#[test]
fn filename_substitutes_version_and_arch() {
    let kernel = by_role("kernel").unwrap();
    assert_eq!(
        kernel.filename("4.18.30", "x86_64"),
        "rhcos-4.18.30-x86_64-live-kernel-x86_64"
    );
    assert!(by_role("no-such-role").is_none());
}

#[test]
fn staging_without_a_required_role_fails() {
    let kernel = by_role("kernel").unwrap();
    let staged = vec![staged_artifact(kernel, "k".to_string(), "/cache/k".to_string())];
    assert_eq!(missing_required(&staged), vec!["initramfs", "rootfs"]);
    match finish_stage("4.18.30".to_string(), "x86_64".to_string(), staged) {
        Err(StageError::RequiredMissing { version, arch, roles }) => {
            assert_eq!(version, "4.18.30");
            assert_eq!(arch, "x86_64");
            assert_eq!(roles, vec!["initramfs", "rootfs"]);
        }
        other => panic!("unexpected result: {other:?}"),
    }
}

#[test]
fn staging_with_the_boot_trio_succeeds() {
    let staged: Vec<_> = ["kernel", "initramfs", "rootfs"]
        .iter()
        .map(|r| {
            let a = by_role(r).unwrap();
            staged_artifact(a, a.filename("4.18.30", "x86_64"), format!("/cache/{r}"))
        })
        .collect();
    assert!(missing_required(&staged).is_empty());
    let s = finish_stage("4.18.30".to_string(), "x86_64".to_string(), staged).unwrap();
    assert_eq!(s.artifacts.len(), 3);
    assert_eq!(s.version, "4.18.30");
}
