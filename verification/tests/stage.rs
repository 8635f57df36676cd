use rspaced::artifacts::by_role;
use rspaced::stage::StagingRun;
use rspaced::sumfile::SumfileError;
use rspaced::cli::{Mode, SourceArgs};
use rspaced::output::{iso, qcow2, registry, OutputError};
use rspaced::registry::{image_ref, pull_artifact, RegistryError};
use rspaced::stage::{
    cache_dir_name, fetch_one, finish_stage, on_fetch_failure, resolve_version, stage_sumfile, FetchSource, StageError,
    Staged, SumfileSource, VersionChoice,
};

fn offline_args(insecure_skip_verify: bool) -> SourceArgs {
    SourceArgs {
        version: Some("4.18.30".into()),
        series: "4.18".into(),
        arch: "x86_64".into(),
        mode: Mode::Offline,
        registry: None,
        cache: "./cache".into(),
        insecure_skip_verify,
    }
}

#[test]
fn offline_without_checksum_fails_closed() {
    let src = offline_args(false);
    assert!(matches!(stage_sumfile(&src, "4.18.30", false), Err(StageError::OfflineNoChecksum)));
}

#[test]
fn offline_insecure_skip_verify_returns_none() {
    let src = offline_args(true);
    assert!(matches!(stage_sumfile(&src, "4.18.30", false), Ok(SumfileSource::SkipVerify)));
}

#[test]
fn offline_with_cached_checksum_uses_the_cache() {
    let src = offline_args(false);
    assert!(matches!(stage_sumfile(&src, "4.18.30", true), Ok(SumfileSource::Cached)));
}

#[test]
fn online_always_verifies() {
    let mut src = offline_args(true);
    src.mode = Mode::Online;
    match stage_sumfile(&src, "4.18.30", false) {
        Ok(SumfileSource::Download(u)) => assert_eq!(
            u,
            "https://mirror.openshift.com/pub/openshift-v4/amd64/dependencies/rhcos/4.18/4.18.30/sha256sum.txt"
        ),
        other => panic!("unexpected result: {other:?}"),
    }
    assert!(matches!(stage_sumfile(&src, "4.18.30", true), Ok(SumfileSource::Cached)));
}

#[test]
fn version_resolution() {
    let mut src = offline_args(false);
    assert!(matches!(resolve_version(&src), Ok(VersionChoice::Exact(v)) if v == "4.18.30"));
    src.version = None;
    assert!(matches!(resolve_version(&src), Err(StageError::OfflineNeedsVersion)));
    src.mode = Mode::Online;
    assert!(matches!(resolve_version(&src), Ok(VersionChoice::LatestInSeries)));
    assert_eq!(cache_dir_name("4.18.30", "x86_64"), "4.18.30-x86_64");
}

#[test]
fn fetch_sources() {
    let mut src = offline_args(false);
    match fetch_one(&src, "4.18.30", "f.iso") {
        Err(StageError::NotCached { name }) => assert_eq!(name, "f.iso"),
        other => panic!("unexpected result: {other:?}"),
    }
    src.registry = Some("http://qregistry:5000".into());
    assert!(matches!(fetch_one(&src, "4.18.30", "f.iso"), Ok(FetchSource::Registry(r)) if r == "http://qregistry:5000"));
    src.mode = Mode::Online;
    match fetch_one(&src, "4.18.30", "f.iso") {
        Ok(FetchSource::Mirror(u)) => {
            assert_eq!(u, "https://mirror.openshift.com/pub/openshift-v4/amd64/dependencies/rhcos/4.18/4.18.30/f.iso")
        }
        other => panic!("unexpected result: {other:?}"),
    }
}

#[test]
fn fetch_failures_abort_only_for_required_artifacts() {
    let kernel = by_role("kernel").unwrap();
    match on_fetch_failure(kernel, "k".into(), "4.18.30", "x86_64", "404".into()) {
        Err(StageError::RequiredUnavailable { role, name, version, arch, cause }) => {
            assert_eq!((role, name.as_str(), version.as_str(), arch.as_str(), cause.as_str()), ("kernel", "k", "4.18.30", "x86_64", "404"));
        }
        other => panic!("unexpected result: {other:?}"),
    }
    let optional = rspaced::artifacts::artifacts().into_iter().find(|a| !a.required).unwrap();
    assert!(on_fetch_failure(optional, "o".into(), "4.18.30", "x86_64", "404".into()).is_ok());
    assert!(matches!(
        finish_stage("v".into(), "a".into(), vec![]),
        Err(StageError::RequiredMissing { .. })
    ));
}

#[test]
fn outputs_and_registry() {
    let src = offline_args(false);
    let staged = Staged { version: "4.18.30".into(), arch: "x86_64".into(), artifacts: vec![] };
    assert!(matches!(registry(&src, &staged), Err(OutputError::RegistryRequired)));
    let mut with_reg = offline_args(false);
    with_reg.registry = Some("http://r".into());
    assert!(registry(&with_reg, &staged).is_ok());
    assert!(matches!(iso(&src, &staged, "out.iso"), Err(OutputError::NotImplemented("iso"))));
    assert!(matches!(qcow2(&src, &staged, "out.qcow2"), Err(OutputError::NotImplemented("qcow2"))));
    assert_eq!(image_ref("http://r:5000//", "kernel", "4.18.30", "x86_64"), "http://r:5000/rhcos-kernel:4.18.30-x86_64");
    assert!(matches!(pull_artifact("r", "v", "a", "f", "d"), Err(RegistryError::PullNotImplemented)));
}

#[test]
fn a_staging_run_stages_in_table_order_under_the_cache_dir() {

    let src = offline_args(false);
    let mut run = StagingRun::new("4.18.30".into(), &src);
    assert_eq!(run.cache_dir(), "./cache/4.18.30-x86_64");
    let mut seen = Vec::new();
    while let Some((art, name, local)) = run.pending() {
        assert_eq!(local, format!("./cache/4.18.30-x86_64/{name}"));
        if art.required {
            run.record_staged();
            seen.push(art.role);
        } else {
            assert!(run.record_unavailable("404".into()).is_ok());
        }
    }
    let s = run.finish().unwrap();
    assert_eq!(s.artifacts.iter().map(|a| a.role).collect::<Vec<_>>(), vec!["kernel", "initramfs", "rootfs"]);
    assert_eq!(seen, vec!["kernel", "initramfs", "rootfs"]);
    assert_eq!(s.artifacts[0].source_name, "rhcos-4.18.30-x86_64-live-kernel-x86_64");
    assert_eq!(s.artifacts[0].local_path, "./cache/4.18.30-x86_64/rhcos-4.18.30-x86_64-live-kernel-x86_64");

    let mut run2 = StagingRun::new("4.18.30".into(), &src);
    match run2.record_unavailable("404".into()) {
        Err(StageError::RequiredUnavailable { role, .. }) => assert_eq!(role, "kernel"),
        other => panic!("unexpected result: {other:?}"),
    }
}

#[test]
fn a_staging_run_with_a_checksum_list_stages_only_matching_files() {
    let src = offline_args(false);
    let mut run = StagingRun::new("4.18.30".into(), &src);
    assert!(!run.has_sumfile());
    run.check_against(
        "AAAA  rhcos-4.18.30-x86_64-live-kernel-x86_64\nbbbb  rhcos-4.18.30-x86_64-live-initramfs.x86_64.img\n".into(),
    );
    assert!(run.has_sumfile());
    // The kernel's hash matches, ignoring case.
    assert!(run.record_verified("aaaa").is_ok());
    // The initramfs's does not: it is not staged and stays pending.
    match run.record_verified("cccc") {
        Err(SumfileError::Mismatch { name, expected, actual }) => {
            assert_eq!(name, "rhcos-4.18.30-x86_64-live-initramfs.x86_64.img");
            assert_eq!((expected.as_str(), actual.as_str()), ("bbbb", "cccc"));
        }
        other => panic!("unexpected result: {other:?}"),
    }
    assert_eq!(run.pending().unwrap().0.role, "initramfs");
    assert!(run.record_verified("BBBB").is_ok());
    // The rootfs has no entry.
    match run.record_verified("dddd") {
        Err(SumfileError::NoEntry { name }) => assert_eq!(name, "rhcos-4.18.30-x86_64-live-rootfs.x86_64.img"),
        other => panic!("unexpected result: {other:?}"),
    }
}
