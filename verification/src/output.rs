//! Output emitters. Writing the raw files is file I/O and lives outside this
//! library; the remaining outputs are not available yet.
use vstd::prelude::*;
use crate::cli::SourceArgs;
use crate::registry::{push_artifact, RegistryError};
use crate::stage::Staged;

verus! {

/// Why an output could not be produced.
#[derive(Clone, Debug)]
pub enum OutputError {
    /// The `registry` output needs a registry to push to.
    RegistryRequired,
    /// A registry operation failed.
    Registry(RegistryError),
    /// This output is not available yet; names the output.
    NotImplemented(&'static str),
}

/// Push every staged artifact to the qregistry named in `src`. Fails without
/// a registry; with one, fails on the first push (pushing is not available
/// yet), so only an empty staged set succeeds.
pub fn registry(src: &SourceArgs, staged: &Staged) -> (r: Result<(), OutputError>)
    ensures
        match src.registry {
            None => r matches Err(OutputError::RegistryRequired),
            Some(_) => if staged.artifacts@.len() == 0 {
                r is Ok
            } else {
                r matches Err(OutputError::Registry(RegistryError::PushNotImplemented))
            },
        },
{
    let reg = match &src.registry {
        Some(r) => r,
        None => return Err(OutputError::RegistryRequired),
    };
    let mut i: usize = 0;
    while i < staged.artifacts.len()
        invariant
            i == 0,
            src.registry is Some,
        decreases staged.artifacts@.len() - i,
    {
        let a = &staged.artifacts[i];
        match push_artifact(
            reg.as_str(),
            a.role,
            staged.version.as_str(),
            staged.arch.as_str(),
            a.in_image_name,
            a.local_path.as_str(),
        ) {
            Ok(()) => {},
            Err(e) => return Err(OutputError::Registry(e)),
        }
        i += 1;
    }
    Ok(())
}

/// Build a bootc-based live ISO. Not available yet: always fails.
pub fn iso(src: &SourceArgs, staged: &Staged, out: &str) -> (r: Result<(), OutputError>)
    ensures
        r matches Err(OutputError::NotImplemented(n)) && n@ == "iso"@,
{
    Err(OutputError::NotImplemented("iso"))
}

/// Build a PXE-bootable tree. Not available yet: always fails.
pub fn pxe(src: &SourceArgs, staged: &Staged, out: &str) -> (r: Result<(), OutputError>)
    ensures
        r matches Err(OutputError::NotImplemented(n)) && n@ == "pxe"@,
{
    Err(OutputError::NotImplemented("pxe"))
}

/// Emit the metal raw disk image. Not available yet: always fails.
pub fn raw(src: &SourceArgs, staged: &Staged, out: &str) -> (r: Result<(), OutputError>)
    ensures
        r matches Err(OutputError::NotImplemented(n)) && n@ == "raw"@,
{
    Err(OutputError::NotImplemented("raw"))
}

/// Emit the QEMU qcow2 image. Not available yet: always fails.
pub fn qcow2(src: &SourceArgs, staged: &Staged, out: &str) -> (r: Result<(), OutputError>)
    ensures
        r matches Err(OutputError::NotImplemented(n)) && n@ == "qcow2"@,
{
    Err(OutputError::NotImplemented("qcow2"))
}

} // verus!
