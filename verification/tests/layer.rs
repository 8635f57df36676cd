use rspaced::client::Reference;
use rspaced::digest::Digest;
use rspaced::layer::{
    count_file, diff_id_verified, has_gzip_magic, image_provenance, is_whiteout_name, layer_names, layer_provenance,
    layer_work, lower_order, mode_order, packed_image, plan_entry, record_unpacked, resolved_inside, safe_rel,
    EntryPlan, LayerStats, LayerWork, TarKind,
};

#[test]
fn safe_rel_normalizes_and_refuses_traversal() {
    assert_eq!(safe_rel(b"etc/hostname"), Some(b"etc/hostname".to_vec()));
    assert_eq!(safe_rel(b"./etc//./hostname"), Some(b"etc/hostname".to_vec()));
    assert_eq!(safe_rel(b"etc/"), Some(b"etc".to_vec()));
    assert_eq!(safe_rel(b"/etc/passwd"), None);
    assert_eq!(safe_rel(b"../x"), None);
    assert_eq!(safe_rel(b"a/../../x"), None);
    assert_eq!(safe_rel(b"."), None);
    assert_eq!(safe_rel(b""), None);
    assert_eq!(safe_rel(b"a/..b/c"), Some(b"a/..b/c".to_vec()));
}

#[test]
fn whiteouts_are_counted_by_file_name() {
    let mut stats = LayerStats::default();
    count_file(&mut stats, b"hostname");
    count_file(&mut stats, b".wh.obsolete");
    assert_eq!(stats.entries, 2);
    assert_eq!(stats.whiteouts, 1);
    assert!(is_whiteout_name(b".wh..wh..opq"));
    assert!(!is_whiteout_name(b".w"));
    assert!(!is_whiteout_name(b".wh.\xff"));
}

#[test]
fn planning_tar_entries() {
    let mut stats = LayerStats::default();
    match plan_entry(&mut stats, TarKind::Other, b"etc/hostname", Some(0o644), None) {
        EntryPlan::Unpack { rel } => {
            assert_eq!(rel, b"etc/hostname".to_vec());
            record_unpacked(&mut stats, true);
        }
        other => panic!("unexpected plan: {other:?}"),
    }
    match plan_entry(&mut stats, TarKind::Other, b"etc/.wh.obsolete", Some(0o644), None) {
        EntryPlan::Unpack { rel } => {
            assert_eq!(rel, b"etc/.wh.obsolete".to_vec());
            record_unpacked(&mut stats, true);
        }
        other => panic!("unexpected plan: {other:?}"),
    }
    assert_eq!(stats.entries, 2);
    assert_eq!(stats.whiteouts, 1);

    match plan_entry(&mut stats, TarKind::Directory, b"root/", Some(0o40555), None) {
        EntryPlan::Directory { rel, mode } => {
            assert_eq!(rel, b"root".to_vec());
            assert_eq!(mode, Some(0o555));
        }
        other => panic!("unexpected plan: {other:?}"),
    }
    match plan_entry(&mut stats, TarKind::HardLink, b"usr/bin/a", None, Some(b"sysroot/obj")) {
        EntryPlan::HardLink { rel, target } => {
            assert_eq!(rel, b"usr/bin/a".to_vec());
            assert_eq!(target, b"sysroot/obj".to_vec());
        }
        other => panic!("unexpected plan: {other:?}"),
    }
    assert_eq!(stats.entries, 3);
    assert!(matches!(
        plan_entry(&mut stats, TarKind::HardLink, b"usr/bin/b", None, Some(b"/etc/shadow")),
        EntryPlan::DanglingLink
    ));
    assert!(matches!(plan_entry(&mut stats, TarKind::Other, b"../evil", None, None), EntryPlan::Skip));
    record_unpacked(&mut stats, false);
    assert_eq!(stats.entries, 3);
    assert_eq!(stats.whiteouts, 1);
}

#[test]
fn entries_resolving_outside_the_layer_are_refused() {
    let root: &[u8] = b"/store/extracted/abc";
    // The layer root itself and anything beneath it are inside.
    assert!(resolved_inside(root, b"/store/extracted/abc"));
    assert!(resolved_inside(root, b"/store/extracted/abc/usr/lib"));
    // A symlink `a -> /tmp` resolves `a/d` to `/tmp/d`: outside.
    assert!(!resolved_inside(root, b"/tmp/d"));
    // A sibling whose name merely starts with the root's is outside.
    assert!(!resolved_inside(root, b"/store/extracted/abcd"));
    assert!(!resolved_inside(root, b"/store/extracted"));
    // Everything absolute lies beneath `/`.
    assert!(resolved_inside(b"/", b"/tmp"));
    // A symlink or a path with a `.wh.` name is planned like any entry.
    let mut stats = LayerStats::default();
    match plan_entry(&mut stats, TarKind::Other, b"lib", None, None) {
        EntryPlan::Unpack { rel } => assert_eq!(rel, b"lib".to_vec()),
        other => panic!("unexpected plan: {other:?}"),
    }
    assert!(matches!(plan_entry(&mut stats, TarKind::Other, b"lib/x", None, None), EntryPlan::Unpack { .. }));
}

#[test]
fn directory_modes_apply_deepest_first() {
    let dirs = vec![
        (b"root".to_vec(), 0o555),
        (b"root/a/b".to_vec(), 0o755),
        (b"usr".to_vec(), 0o755),
        (b"root/a".to_vec(), 0o700),
    ];
    assert_eq!(mode_order(&dirs), vec![1, 3, 0, 2]);
    assert!(mode_order(&vec![]).is_empty());
}

#[test]
fn gzip_magic() {
    assert!(has_gzip_magic(&[0x1f, 0x8b]));
    assert!(!has_gzip_magic(&[0x1f]));
    assert!(!has_gzip_magic(b"ustar"));
}

#[test]
fn layer_bookkeeping() {
    let layer = Digest(format!("sha256:{}", "c".repeat(64)));
    let (dir, marker, verity) = layer_names(&layer);
    assert_eq!(dir, format!("extracted/{}", "c".repeat(64)));
    assert_eq!(marker, format!("extracted/{}.done", "c".repeat(64)));
    assert_eq!(verity, format!("provenance/layers/{}.verity.json", "c".repeat(64)));

    let diff = Digest("sha256:d".into());
    assert!(diff_id_verified(&vec![Digest("sha256:d".into())], 0, &diff));
    assert!(!diff_id_verified(&vec![Digest("sha256:e".into())], 0, &diff));
    assert!(!diff_id_verified(&vec![], 0, &diff));

    assert!(matches!(layer_work(true), LayerWork::Reuse));
    assert!(matches!(layer_work(false), LayerWork::Extract));

    let stats = LayerStats { entries: 5, whiteouts: 1 };
    let lp = layer_provenance(&layer, &diff, true, "root".into(), stats);
    assert_eq!(lp.dir, dir);
    assert_eq!(lp.diff_id.as_deref(), Some("sha256:d"));
    assert_eq!(lp.entries, 5);

    let r = Reference::parse("quay.io/foo/bar:v1").unwrap();
    let ip = image_provenance(
        &r,
        "amd64",
        "linux",
        &Some(Digest("sha256:idx".into())),
        &Digest("sha256:m".into()),
        &Digest("sha256:cfg".into()),
        vec![lp],
    );
    assert_eq!(ip.image, "quay.io/foo/bar:v1");
    assert_eq!(ip.index_digest.as_deref(), Some("sha256:idx"));
    assert_eq!(ip.record_path(), "provenance/images/m.json");

    let p = packed_image(
        Digest("sha256:m".into()),
        None,
        Digest("sha256:cfg".into()),
        vec!["base".into(), "mid".into(), "top".into()],
        ip,
    );
    assert_eq!(p.layer_dirs, vec!["top", "mid", "base"]);
    assert_eq!(lower_order(vec!["a".into(), "b".into()]), vec!["b", "a"]);
}

#[test]
fn sanitizing_a_sanitized_path_changes_nothing() {
    for p in [&b"./a//b/./c"[..], b"etc/", b"x", b"a/..b"] {
        let once = safe_rel(p).unwrap();
        assert_eq!(safe_rel(&once), Some(once.clone()));
        assert_ne!(once[0], b'/');
        assert!(once.split(|b| *b == b'/').all(|c| !c.is_empty() && c != b"." && c != b".."));
    }
}
