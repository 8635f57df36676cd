//! The compose tool's command-line model, as plain data. Argument parsing
//! happens outside this library, which then hands these values in.
use vstd::prelude::*;
use crate::mirror::{mirror_arch, spec_mirror_arch};
use crate::payload::PackOptions;

verus! {

/// The parsed command line.
#[derive(Clone, Debug)]
pub struct Cli {
    /// The subcommand to run.
    pub command: Command,
}

/// The compose tool's subcommands.
#[derive(Clone, Debug)]
pub enum Command {
    /// Print the latest RHCOS z-stream version in a major.minor series.
    Latest(LatestArgs),
    /// Pull and pack an entire OpenShift release payload into a
    /// provenance-tracked store.
    Release(ReleaseArgs),
    /// Push the artifact set to a qregistry.
    Registry(SourceArgs),
    /// Build a bootc-based live ISO.
    Iso(OutArgs),
    /// Build a PXE-bootable tree.
    Pxe(OutArgs),
    /// Emit the metal raw disk image.
    Raw(OutArgs),
    /// Emit the QEMU qcow2 image.
    Qcow2(OutArgs),
    /// Write the raw RHCOS files to a directory.
    Files(OutArgs),
}

/// Arguments of `latest`.
#[derive(Clone, Debug)]
pub struct LatestArgs {
    /// major.minor series, e.g. "4.18".
    pub series: String,
    /// Target architecture (kernel-arch name, e.g. x86_64 / aarch64).
    pub arch: String,
}

/// Arguments of `release`.
#[derive(Clone, Debug)]
pub struct ReleaseArgs {
    /// RHCOS/OCP z-stream version, e.g. "4.18.30".
    pub version: String,
    /// Target architecture (kernel-arch name).
    pub arch: String,
    /// Provenance-tracked store directory.
    pub store: String,
    /// Release image repository (without tag).
    pub image_base: String,
    /// Cap the number of component images pulled.
    pub limit: Option<usize>,
}

/// Where artifacts come from.
#[derive(Clone, Debug)]
pub struct SourceArgs {
    /// Exact RHCOS z-stream version (e.g. 4.18.27). Overrides `series`.
    pub version: Option<String>,
    /// major.minor series to resolve "latest" from when `version` is absent.
    pub series: String,
    /// Target architecture (kernel-arch name, e.g. x86_64 / aarch64).
    pub arch: String,
    /// online: pull from the mirror; offline: build from the local cache.
    pub mode: Mode,
    /// Optional qregistry base URL.
    pub registry: Option<String>,
    /// Local raw-download cache directory.
    pub cache: String,
    /// Offline only: build without a checksum list (unsafe).
    pub insecure_skip_verify: bool,
}

/// Arguments of the output subcommands.
#[derive(Clone, Debug)]
pub struct OutArgs {
    /// Where artifacts come from.
    pub source: SourceArgs,
    /// Output path (file or directory, depending on the subcommand).
    pub out: String,
}

/// Source mode.
#[derive(Clone, Copy, Debug)]
pub enum Mode {
    /// Pull artifacts from the upstream OpenShift mirror. No registry required.
    Online,
    /// Build from the local cache / local rspacefs; never touch the mirror.
    Offline,
}

/// The packing options of `release`: the mirror (OCI platform) spelling of
/// the architecture, Linux, and the component cap.
pub fn release_pack_options(a: &ReleaseArgs) -> (o: PackOptions)
    ensures
        o.arch@ == spec_mirror_arch(a.arch@),
        o.os@ == "linux"@,
        o.limit == a.limit,
{
    PackOptions { arch: String::from_str(mirror_arch(a.arch.as_str())), os: String::from_str("linux"), limit: a.limit }
}

/// The release image reference `release` packs:
/// `<image_base>:<version>-<arch>`.
pub fn release_image(a: &ReleaseArgs) -> (r: String)
    ensures
        r@ == a.image_base@ + ":"@ + a.version@ + "-"@ + a.arch@,
{
    let mut r = a.image_base.clone();
    r.append(":");
    r.append(a.version.as_str());
    r.append("-");
    r.append(a.arch.as_str());
    r
}

} // verus!
