//! The RHCOS install-media artifact set the compose pipeline handles.
use vstd::prelude::*;
use crate::mirror::str_is;
use crate::text::{replace_all, replace_str};

verus! {

/// One RHCOS install-media artifact.
#[derive(Clone, Copy, Debug)]
pub struct Artifact {
    /// Logical role; drives OCI image naming and rspacefs registry placement.
    pub role: &'static str,
    /// Filename template; `{version}` and `{arch}` are substituted.
    pub template: &'static str,
    /// Basename used for the file inside a packaged OCI image.
    pub in_image_name: &'static str,
    /// Whether a bootable image cannot be assembled without this artifact. If a
    /// required artifact fails to stage or verify, staging fails outright rather
    /// than silently producing a partial set. Optional artifacts (alternate
    /// deployment formats the mirror may not publish for every release) are
    /// skipped with a warning when unavailable.
    pub required: bool,
}

/// `{version}`.
pub open spec fn version_placeholder() -> Seq<char> {
    seq!['{', 'v', 'e', 'r', 's', 'i', 'o', 'n', '}']
}

/// `{arch}`.
pub open spec fn arch_placeholder() -> Seq<char> {
    seq!['{', 'a', 'r', 'c', 'h', '}']
}

/// The template with `{version}` and then `{arch}` substituted.
pub open spec fn spec_filename(template: Seq<char>, version: Seq<char>, arch: Seq<char>) -> Seq<char> {
    replace_all(replace_all(template, version_placeholder(), version), arch_placeholder(), arch)
}

impl Artifact {
    /// Concrete mirror filename for a given version/arch.
    pub fn filename(&self, version: &str, arch: &str) -> (r: String)
        ensures
            r@ == spec_filename(self.template@, version@, arch@),
    {
        proof {
            reveal_strlit("{version}");
            reveal_strlit("{arch}");
            assert("{version}"@ == version_placeholder());
            assert("{arch}"@ == arch_placeholder());
        }
        let with_version = replace_str(self.template, "{version}", version);
        replace_str(with_version.as_str(), "{arch}", arch)
    }
}

/// The artifact table as `(role, template, in-image name, required)`.
pub open spec fn artifact_table() -> Seq<(Seq<char>, Seq<char>, Seq<char>, bool)> {
    seq![
        ("kernel"@, "rhcos-{version}-{arch}-live-kernel-{arch}"@, "vmlinuz"@, true),
        ("initramfs"@, "rhcos-{version}-{arch}-live-initramfs.{arch}.img"@, "initramfs.img"@, true),
        ("rootfs"@, "rhcos-{version}-{arch}-live-rootfs.{arch}.img"@, "rootfs.img"@, true),
        ("iso"@, "rhcos-{version}-{arch}-live.{arch}.iso"@, "live.iso"@, false),
        ("metal"@, "rhcos-{version}-{arch}-metal.{arch}.raw.gz"@, "metal.raw.gz"@, false),
        ("metal4k"@, "rhcos-{version}-{arch}-metal4k.{arch}.raw.gz"@, "metal4k.raw.gz"@, false),
        ("qemu"@, "rhcos-{version}-{arch}-qemu.{arch}.qcow2.gz"@, "qemu.qcow2.gz"@, false),
        ("vmware"@, "rhcos-{version}-{arch}-vmware.{arch}.ova"@, "vmware.ova"@, false),
    ]
}

/// An artifact's fields as views.
pub open spec fn artifact_view(a: Artifact) -> (Seq<char>, Seq<char>, Seq<char>, bool) {
    (a.role@, a.template@, a.in_image_name@, a.required)
}

fn artifact(role: &'static str, template: &'static str, in_image_name: &'static str, required: bool) -> (a: Artifact)
    ensures
        a.role@ == role@,
        a.template@ == template@,
        a.in_image_name@ == in_image_name@,
        a.required == required,
{
    Artifact { role, template, in_image_name, required }
}

/// Authoritative ordered list. Producers iterate this so naming stays
/// consistent across the fetch / verify / package / emit stages.
///
/// The live kernel has no extension and a trailing `-{arch}`; every other
/// artifact uses `-{arch}.<ext>`.
///
/// `required` marks the boot trio (kernel + initramfs + rootfs) that a live
/// boot image cannot be assembled without. The remaining entries are alternate
/// deployment formats the mirror does not publish for every release, so they
/// are optional — missing ones are skipped with a warning.
pub fn artifacts() -> (v: Vec<Artifact>)
    ensures
        v@.len() == artifact_table().len(),
        forall|i: int| 0 <= i < v@.len() ==> artifact_view(#[trigger] v@[i]) == artifact_table()[i],
{
    let v = vec![
        artifact("kernel", "rhcos-{version}-{arch}-live-kernel-{arch}", "vmlinuz", true),
        artifact("initramfs", "rhcos-{version}-{arch}-live-initramfs.{arch}.img", "initramfs.img", true),
        artifact("rootfs", "rhcos-{version}-{arch}-live-rootfs.{arch}.img", "rootfs.img", true),
        artifact("iso", "rhcos-{version}-{arch}-live.{arch}.iso", "live.iso", false),
        artifact("metal", "rhcos-{version}-{arch}-metal.{arch}.raw.gz", "metal.raw.gz", false),
        artifact("metal4k", "rhcos-{version}-{arch}-metal4k.{arch}.raw.gz", "metal4k.raw.gz", false),
        artifact("qemu", "rhcos-{version}-{arch}-qemu.{arch}.qcow2.gz", "qemu.qcow2.gz", false),
        artifact("vmware", "rhcos-{version}-{arch}-vmware.{arch}.ova", "vmware.ova", false),
    ];
    v
}

/// Look up an artifact by role: the first in [`artifacts`] with that role.
pub fn by_role(role: &str) -> (r: Option<Artifact>)
    ensures
        match r {
            Some(a) => exists|i: int|
                0 <= i < artifact_table().len() && artifact_view(a) == artifact_table()[i]
                    && artifact_table()[i].0 == role@ && forall|j: int|
                    0 <= j < i ==> #[trigger] artifact_table()[j].0 != role@,
            None => forall|j: int| 0 <= j < artifact_table().len() ==> #[trigger] artifact_table()[j].0 != role@,
        },
{
    let all = artifacts();
    let mut i: usize = 0;
    while i < all.len()
        invariant
            i <= all@.len() == artifact_table().len(),
            forall|k: int| 0 <= k < all@.len() ==> artifact_view(#[trigger] all@[k]) == artifact_table()[k],
            forall|j: int| 0 <= j < i ==> #[trigger] artifact_table()[j].0 != role@,
        decreases all@.len() - i,
    {
        if str_is(all[i].role, role) {
            assert(artifact_view(all@[i as int]) == artifact_table()[i as int]);
            return Some(all[i]);
        }
        assert(artifact_view(all@[i as int]) == artifact_table()[i as int]);
        i += 1;
    }
    None
}

} // verus!

verus! {

/// The artifact table names each role once, and its required entries are
/// exactly the boot trio: kernel, initramfs and rootfs.
pub proof fn lemma_artifact_table()
    ensures
        forall|i: int, j: int|
            0 <= i < j < artifact_table().len() ==> #[trigger] artifact_table()[i].0 != #[trigger] artifact_table()[j].0,
        forall|i: int|
            0 <= i < artifact_table().len() ==> (#[trigger] artifact_table()[i].3 <==> (artifact_table()[i].0
                == "kernel"@ || artifact_table()[i].0 == "initramfs"@ || artifact_table()[i].0 == "rootfs"@)),
{
    reveal_strlit("kernel");
    reveal_strlit("initramfs");
    reveal_strlit("rootfs");
    reveal_strlit("iso");
    reveal_strlit("metal");
    reveal_strlit("metal4k");
    reveal_strlit("qemu");
    reveal_strlit("vmware");
    let t = artifact_table();
    assert(t[0].0.len() == 6 && t[1].0.len() == 9 && t[2].0.len() == 6 && t[3].0.len() == 3);
    assert(t[4].0.len() == 5 && t[5].0.len() == 7 && t[6].0.len() == 4 && t[7].0.len() == 6);
    assert(t[0].0[0] == 'k' && t[2].0[0] == 'r' && t[7].0[0] == 'v');
}

} // verus!
