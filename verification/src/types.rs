//! OCI / Docker image manifest structures.
//!
//! JSON (de)serialization of these types is done outside this library,
//! which converts to and from them.
use vstd::prelude::*;
use std::collections::BTreeMap;
use crate::digest::Digest;
use crate::mirror::str_is;

verus! {

/// A content-addressable blob reference.
#[derive(Clone, Debug)]
pub struct Descriptor {
    /// Blob media type.
    pub media_type: String,
    /// Blob digest.
    pub digest: Digest,
    /// Blob size in bytes.
    pub size: i64,
    /// Optional alternate download URLs.
    pub urls: Vec<String>,
    /// Optional annotations.
    pub annotations: Option<BTreeMap<String, String>>,
    /// Platform (present on index entries).
    pub platform: Option<Platform>,
}

/// Target platform of an image or index entry.
#[derive(Clone, Debug)]
pub struct Platform {
    /// CPU architecture (e.g. `amd64`, `arm64`).
    pub architecture: String,
    /// OS (e.g. `linux`).
    pub os: String,
    /// Optional OS version.
    pub os_version: Option<String>,
    /// Optional architecture variant (e.g. `v8`).
    pub variant: Option<String>,
}

/// An OCI / Docker image manifest.
#[derive(Clone, Debug)]
pub struct Manifest {
    /// Schema version (2).
    pub schema_version: i32,
    /// Manifest media type.
    pub media_type: Option<String>,
    /// Image config descriptor.
    pub config: Descriptor,
    /// Ordered layer descriptors (lowest first).
    pub layers: Vec<Descriptor>,
    /// Optional annotations.
    pub annotations: Option<BTreeMap<String, String>>,
}

/// An OCI image index / Docker manifest list (multi-arch).
#[derive(Clone, Debug)]
pub struct Index {
    /// Schema version (2).
    pub schema_version: i32,
    /// Index media type.
    pub media_type: Option<String>,
    /// Per-platform manifest descriptors.
    pub manifests: Vec<Descriptor>,
    /// Optional annotations.
    pub annotations: Option<BTreeMap<String, String>>,
}

/// The image configuration blob.
#[derive(Clone, Debug)]
pub struct ImageConfig {
    /// Architecture.
    pub architecture: String,
    /// OS.
    pub os: String,
    /// Root filesystem (diff IDs).
    pub rootfs: RootFs,
    /// Optional layer history.
    pub history: Vec<History>,
}

/// Root filesystem section of an image config.
#[derive(Clone, Debug)]
pub struct RootFs {
    /// Always `layers`.
    pub fs_type: String,
    /// Uncompressed layer diff IDs.
    pub diff_ids: Vec<Digest>,
}

/// A single layer-history entry.
#[derive(Clone, Debug)]
pub struct History {
    /// Command that created the layer.
    pub created_by: Option<String>,
    /// Whether this history entry produced no filesystem layer.
    pub empty_layer: bool,
}

/// Whether a descriptor declares platform `arch`/`os`.
pub open spec fn platform_is(d: Descriptor, arch: Seq<char>, os: Seq<char>) -> bool {
    match d.platform {
        Some(p) => p.architecture@ == arch && p.os@ == os,
        None => false,
    }
}

impl Index {
    /// Pick the manifest descriptor for a given arch + os (e.g. `amd64`/`linux`):
    /// the first entry whose platform matches both.
    pub fn select(&self, arch: &str, os: &str) -> (r: Option<&Descriptor>)
        ensures
            match r {
                Some(d) => exists|i: int|
                    0 <= i < self.manifests@.len() && self.manifests@[i] == *d && platform_is(
                        self.manifests@[i],
                        arch@,
                        os@,
                    ) && forall|j: int| 0 <= j < i ==> !platform_is(#[trigger] self.manifests@[j], arch@, os@),
                None => forall|j: int|
                    0 <= j < self.manifests@.len() ==> !platform_is(#[trigger] self.manifests@[j], arch@, os@),
            },
            r matches Some(d) ==> d.platform matches Some(p) && p.architecture@ == arch@ && p.os@ == os@,
    {
        let mut i: usize = 0;
        while i < self.manifests.len()
            invariant
                i <= self.manifests@.len(),
                forall|j: int| 0 <= j < i ==> !platform_is(#[trigger] self.manifests@[j], arch@, os@),
            decreases self.manifests@.len() - i,
        {
            let d = &self.manifests[i];
            let hit = match &d.platform {
                Some(p) => str_is(p.architecture.as_str(), arch) && str_is(p.os.as_str(), os),
                None => false,
            };
            if hit {
                return Some(d);
            }
            i += 1;
        }
        None
    }
}

} // verus!

verus! {

/// A descriptor selected for a platform declares exactly that platform: its
/// architecture and its os both equal the requested ones, so an entry of
/// another os (or architecture) is never the one picked, and no descriptor
/// is selected for two different platforms.
pub proof fn lemma_selected_platform(d: Descriptor, arch: Seq<char>, os: Seq<char>, arch2: Seq<char>, os2: Seq<char>)
    ensures
        platform_is(d, arch, os) ==> (d.platform matches Some(p) && p.architecture@ == arch && p.os@ == os),
        platform_is(d, arch, os) && platform_is(d, arch2, os2) ==> arch == arch2 && os == os2,
        d.platform is None ==> !platform_is(d, arch, os),
{
}

} // verus!
