//! Provenance records — the hash chain for every packed artifact.
//!
//! Every byte must be verifiable by hash before, during, and after each
//! transform. These records capture that chain so the whole store is
//! independently re-verifiable. Their JSON form and the files they are
//! written to are handled outside this library; the record names are here.
use vstd::prelude::*;
use crate::text::{chars_of, find_first_in, split_once, string_of};

verus! {

/// Per-layer hash chain.
#[derive(Clone, Debug)]
pub struct LayerProvenance {
    /// OCI layer digest of the *compressed* blob.
    pub compressed_digest: String,
    /// sha256 of the *uncompressed* tar, cross-checked against the image
    /// config's `rootfs.diff_ids`.
    pub diff_id: Option<String>,
    /// Whether `diff_id` matched the image config's declared diff_id.
    pub diff_id_verified: bool,
    /// Hex Merkle root over the extracted layer tree.
    pub verity_root: String,
    /// Extracted layer directory, relative to the store root.
    pub dir: String,
    /// Files + symlinks extracted.
    pub entries: u64,
    /// OCI whiteout markers preserved.
    pub whiteouts: u64,
}

/// Hash chain for one packed image.
#[derive(Clone, Debug)]
pub struct ImageProvenance {
    /// Source image reference.
    pub image: String,
    /// Platform architecture resolved.
    pub arch: String,
    /// Platform OS resolved.
    pub os: String,
    /// The image index digest, if the reference resolved through one.
    pub index_digest: Option<String>,
    /// The image manifest digest (the per-image provenance anchor).
    pub manifest_digest: String,
    /// The image config blob digest.
    pub config_digest: String,
    /// Per-layer chains, in manifest (base-first) order.
    pub layers: Vec<LayerProvenance>,
}

/// One component image's provenance summary in a release.
#[derive(Clone, Debug)]
pub struct ComponentProvenance {
    /// Component/tag name.
    pub name: String,
    /// Upstream image reference.
    pub image: String,
    /// Resolved manifest digest (anchor), or `None` if the component failed.
    pub manifest_digest: Option<String>,
    /// Error string if packing this component failed.
    pub error: Option<String>,
}

/// Hash chain for a whole release payload.
#[derive(Clone, Debug)]
pub struct ReleaseProvenance {
    /// Release image reference.
    pub release_image: String,
    /// Platform architecture.
    pub arch: String,
    /// Platform OS.
    pub os: String,
    /// Release image manifest digest (the release's identity).
    pub release_manifest_digest: String,
    /// Every component image referenced by the release.
    pub components: Vec<ComponentProvenance>,
}

/// The hex of an `algo:hex` digest, or the whole string if it has no `:`.
pub open spec fn hex_or_whole(digest: Seq<char>) -> Seq<char> {
    match split_once(digest, ':') {
        Some((_, h)) => h,
        None => digest,
    }
}

/// Hex portion of an `algo:hex` digest (or the whole string if unprefixed).
pub fn digest_hex(digest: &str) -> (r: String)
    ensures
        r@ == hex_or_whole(digest@),
{
    let v = chars_of(digest);
    assert(v@.subrange(0, v@.len() as int) == v@);
    match find_first_in(&v, 0, v.len(), ':') {
        Some(i) => {
            assert(v@.skip(i + 1) == v@.subrange(i + 1, v@.len() as int));
            string_of(&v, i + 1, v.len())
        },
        None => string_of(&v, 0, v.len()),
    }
}

impl ImageProvenance {
    /// Where this record is kept, relative to the store root:
    /// `provenance/images/<manifest-hex>.json`.
    pub fn record_path(&self) -> (p: String)
        ensures
            p@ == "provenance/images/"@ + hex_or_whole(self.manifest_digest@) + ".json"@,
    {
        let mut p = String::from_str("provenance/images/");
        let hex = digest_hex(self.manifest_digest.as_str());
        p.append(hex.as_str());
        p.append(".json");
        p
    }
}

impl ReleaseProvenance {
    /// Where this record is kept, relative to the store root:
    /// `provenance/release-<manifest-hex>.json`.
    pub fn record_path(&self) -> (p: String)
        ensures
            p@ == "provenance/release-"@ + hex_or_whole(self.release_manifest_digest@) + ".json"@,
    {
        let mut p = String::from_str("provenance/release-");
        let hex = digest_hex(self.release_manifest_digest.as_str());
        p.append(hex.as_str());
        p.append(".json");
        p
    }
}

impl ComponentProvenance {
    /// The record of a component that packed to `manifest_digest`.
    pub fn packed(name: String, image: String, manifest_digest: String) -> (c: ComponentProvenance)
        ensures
            c.name == name,
            c.image == image,
            c.manifest_digest == Some(manifest_digest),
            c.error is None,
    {
        ComponentProvenance { name, image, manifest_digest: Some(manifest_digest), error: None }
    }

    /// The record of a component that failed with `error`.
    pub fn failed(name: String, image: String, error: String) -> (c: ComponentProvenance)
        ensures
            c.name == name,
            c.image == image,
            c.manifest_digest is None,
            c.error == Some(error),
    {
        ComponentProvenance { name, image, manifest_digest: None, error: Some(error) }
    }
}

} // verus!
