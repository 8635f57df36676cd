//! Packing a whole OpenShift release payload.
//!
//! The release image is pulled and packed, its `image-references` read, and
//! then every component image packed into one shared store. The pulls happen
//! outside this library; the bookkeeping of a run is here: the options, what
//! each attempted component is recorded as, and the release's provenance.
use vstd::prelude::*;
use crate::client::Reference;
use crate::digest::Digest;
use crate::layer::PackedImage;
use crate::provenance::{ComponentProvenance, ReleaseProvenance};
use crate::release::{ComponentRef, ImageReferences};

verus! {

/// One packed component image from the release payload.
#[derive(Clone, Debug)]
pub struct PackedComponent {
    /// Component/tag name (e.g. `machine-os-images`, `cli`).
    pub name: String,
    /// Upstream image reference it was pulled from.
    pub image: String,
    /// Manifest digest it resolved to.
    pub manifest_digest: Digest,
    /// Layer directories, in `LayerFS` lower order.
    pub layer_dirs: Vec<String>,
}

/// Result of packing an entire release.
#[derive(Clone, Debug)]
pub struct PackedRelease {
    /// The packed release image itself.
    pub release: PackedImage,
    /// The parsed `image-references` payload.
    pub references: ImageReferences,
    /// Successfully packed component images.
    pub components: Vec<PackedComponent>,
    /// Components that failed: `(name, error)`.
    pub failures: Vec<(String, String)>,
    /// Release-level provenance (also written to the store).
    pub provenance: ReleaseProvenance,
}

/// Options for packing a release.
#[derive(Clone, Debug)]
pub struct PackOptions {
    /// Platform architecture to resolve (e.g. `amd64`).
    pub arch: String,
    /// Platform OS to resolve (e.g. `linux`).
    pub os: String,
    /// Cap the number of components attempted (for testing). `None` = all.
    pub limit: Option<usize>,
}

impl Default for PackOptions {
    fn default() -> (o: PackOptions)
        ensures
            o.arch@ == "amd64"@,
            o.os@ == "linux"@,
            o.limit is None,
    {
        PackOptions { arch: String::from_str("amd64"), os: String::from_str("linux"), limit: None }
    }
}

/// The outcomes of the component images attempted so far in a release run:
/// those packed, those that failed, and the provenance record of each, in
/// the order they were attempted.
#[derive(Clone, Debug)]
pub struct ReleaseRun {
    /// Successfully packed component images.
    pub components: Vec<PackedComponent>,
    /// Components that failed: `(name, error)`.
    pub failures: Vec<(String, String)>,
    /// One record per attempted component.
    pub records: Vec<ComponentProvenance>,
}

impl ReleaseRun {
    /// Every attempted component has exactly one record, and it is either a
    /// packed one or a failed one.
    pub open spec fn accounted(&self) -> bool {
        self.records@.len() == self.components@.len() + self.failures@.len()
    }

    /// A run with nothing attempted yet.
    pub fn new() -> (r: ReleaseRun)
        ensures
            r.components@.len() == 0,
            r.failures@.len() == 0,
            r.records@.len() == 0,
            r.accounted(),
    {
        ReleaseRun { components: Vec::new(), failures: Vec::new(), records: Vec::new() }
    }

    /// Record that component `c` packed to `manifest_digest` with its layer
    /// directories `layer_dirs`.
    pub fn record_packed(&mut self, c: &ComponentRef, manifest_digest: Digest, layer_dirs: Vec<String>)
        ensures
            final(self).components@.len() == old(self).components@.len() + 1,
            final(self).components@.drop_last() == old(self).components@,
            final(self).components@.last().name@ == c.name@,
            final(self).components@.last().image@ == c.image@,
            final(self).components@.last().manifest_digest.0@ == manifest_digest.0@,
            final(self).components@.last().layer_dirs@ == layer_dirs@,
            final(self).failures@ == old(self).failures@,
            final(self).records@.len() == old(self).records@.len() + 1,
            final(self).records@.drop_last() == old(self).records@,
            final(self).records@.last().name@ == c.name@,
            final(self).records@.last().image@ == c.image@,
            final(self).records@.last().manifest_digest matches Some(d) && d@ == manifest_digest.0@,
            final(self).records@.last().error is None,
            old(self).accounted() ==> final(self).accounted(),
    {
        let record = ComponentProvenance::packed(
            c.name.clone(),
            c.image.clone(),
            manifest_digest.0.clone(),
        );
        self.records.push(record);
        let packed = PackedComponent {
            name: c.name.clone(),
            image: c.image.clone(),
            manifest_digest,
            layer_dirs,
        };
        self.components.push(packed);
    }

    /// Record that component `c` failed with `error`.
    pub fn record_failed(&mut self, c: &ComponentRef, error: String)
        ensures
            final(self).components@ == old(self).components@,
            final(self).failures@.len() == old(self).failures@.len() + 1,
            final(self).failures@.drop_last() == old(self).failures@,
            final(self).failures@.last().0@ == c.name@,
            final(self).failures@.last().1@ == error@,
            final(self).records@.len() == old(self).records@.len() + 1,
            final(self).records@.drop_last() == old(self).records@,
            final(self).records@.last().name@ == c.name@,
            final(self).records@.last().image@ == c.image@,
            final(self).records@.last().manifest_digest is None,
            final(self).records@.last().error matches Some(e) && e@ == error@,
            old(self).accounted() ==> final(self).accounted(),
    {
        let record = ComponentProvenance::failed(c.name.clone(), c.image.clone(), error.clone());
        self.records.push(record);
        self.failures.push((c.name.clone(), error));
    }
}

/// The provenance of a release run: the release image's label, the platform,
/// the release manifest's digest and the component records.
pub fn release_provenance(
    release_ref: &Reference,
    opts: &PackOptions,
    release_manifest_digest: &Digest,
    components: Vec<ComponentProvenance>,
) -> (p: ReleaseProvenance)
    ensures
        p.release_image@ == release_ref.registry@ + "/"@ + release_ref.repository@ + ":"@
            + release_ref.reference@,
        p.arch@ == opts.arch@,
        p.os@ == opts.os@,
        p.release_manifest_digest@ == release_manifest_digest.0@,
        p.components@ == components@,
{
    ReleaseProvenance {
        release_image: release_ref.image_label(),
        arch: opts.arch.clone(),
        os: opts.os.clone(),
        release_manifest_digest: release_manifest_digest.0.clone(),
        components,
    }
}

} // verus!
