//! Well-known media-type strings.
use vstd::prelude::*;

verus! {

/// OCI image manifest.
pub const MANIFEST: &'static str = "application/vnd.oci.image.manifest.v1+json";

/// OCI image index (multi-arch).
pub const INDEX: &'static str = "application/vnd.oci.image.index.v1+json";

/// OCI image config.
pub const IMAGE_CONFIG: &'static str = "application/vnd.oci.image.config.v1+json";

/// OCI gzipped layer.
pub const LAYER_GZIP: &'static str = "application/vnd.oci.image.layer.v1.tar+gzip";

/// OCI zstd layer.
pub const LAYER_ZSTD: &'static str = "application/vnd.oci.image.layer.v1.tar+zstd";

/// Docker v2 manifest.
pub const DOCKER_MANIFEST: &'static str = "application/vnd.docker.distribution.manifest.v2+json";

/// Docker v2 manifest list.
pub const DOCKER_MANIFEST_LIST: &'static str = "application/vnd.docker.distribution.manifest.list.v2+json";

/// Docker image config.
pub const DOCKER_IMAGE_CONFIG: &'static str = "application/vnd.docker.container.image.v1+json";

/// Docker gzipped layer.
pub const DOCKER_LAYER_GZIP: &'static str = "application/vnd.docker.image.rootfs.diff.tar.gzip";

/// `Accept` header value covering both OCI and Docker manifest + index types.
pub const MEDIA_TYPES_ACCEPT: &'static str = "application/vnd.oci.image.manifest.v1+json, application/vnd.oci.image.index.v1+json, application/vnd.docker.distribution.manifest.v2+json, application/vnd.docker.distribution.manifest.list.v2+json";

} // verus!
