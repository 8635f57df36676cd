use rspaced::cli::{release_image, release_pack_options, ReleaseArgs};
use rspaced::client::Reference;
use rspaced::digest::Digest;
use rspaced::payload::{release_provenance, PackOptions, ReleaseRun};
use rspaced::release::{plan_components, ComponentRef, ImageReferences};

fn refs() -> ImageReferences {
    let c = |n: &str, i: &str| ComponentRef { name: n.into(), image: i.into() };
    ImageReferences {
        components: vec![
            c("machine-os-images", "quay.io/openshift-release-dev/ocp-v4.0-art-dev@sha256:aaa"),
            c("installer", "quay.io/openshift-release-dev/ocp-v4.0-art-dev@sha256:bbb"),
            c("installer-alias", "quay.io/openshift-release-dev/ocp-v4.0-art-dev@sha256:bbb"),
            c("cli", "quay.io/openshift-release-dev/ocp-v4.0-art-dev@sha256:ccc"),
        ],
    }
}

#[test]
fn get_finds_the_first_component_by_name() {
    let r = refs();
    assert_eq!(
        r.get("machine-os-images"),
        Some("quay.io/openshift-release-dev/ocp-v4.0-art-dev@sha256:aaa")
    );
    assert_eq!(r.get("missing"), None);
}

#[test]
fn plan_packs_each_image_once_within_the_limit() {
    let r = refs();
    assert_eq!(plan_components(&r, None), vec![0, 1, 3]);
    assert_eq!(plan_components(&r, Some(3)), vec![0, 1]);
    assert_eq!(plan_components(&r, Some(0)), Vec::<usize>::new());
    assert_eq!(plan_components(&r, Some(99)), vec![0, 1, 3]);
}

#[test]
fn a_run_records_every_attempt() {
    let r = refs();
    let mut run = ReleaseRun::new();
    run.record_packed(&r.components[0], Digest("sha256:m0".into()), vec!["d1".into()]);
    run.record_failed(&r.components[1], "boom".into());
    assert_eq!(run.components.len(), 1);
    assert_eq!(run.failures, vec![("installer".to_string(), "boom".to_string())]);
    assert_eq!(run.records.len(), 2);
    assert_eq!(run.records[0].manifest_digest.as_deref(), Some("sha256:m0"));
    assert_eq!(run.records[1].error.as_deref(), Some("boom"));
    assert!(run.records[1].manifest_digest.is_none());
}

#[test]
fn release_command_builds_reference_options_and_provenance() {
    let a = ReleaseArgs {
        version: "4.18.30".into(),
        arch: "x86_64".into(),
        store: "./store".into(),
        image_base: "quay.io/openshift-release-dev/ocp-release".into(),
        limit: Some(5),
    };
    let image = release_image(&a);
    assert_eq!(image, "quay.io/openshift-release-dev/ocp-release:4.18.30-x86_64");
    let o = release_pack_options(&a);
    assert_eq!(o.arch, "amd64");
    assert_eq!(o.os, "linux");
    assert_eq!(o.limit, Some(5));
    let d = PackOptions::default();
    assert_eq!((d.arch.as_str(), d.os.as_str(), d.limit), ("amd64", "linux", None));

    let reference = Reference::parse(&image).unwrap();
    let p = release_provenance(&reference, &o, &Digest("sha256:rel".into()), vec![]);
    assert_eq!(p.release_image, image);
    assert_eq!(p.record_path(), "provenance/release-rel.json");
}
