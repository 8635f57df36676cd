//! Naming of per-artifact images in a qregistry, and the (not yet available)
//! push/pull of those images.
use vstd::prelude::*;

verus! {

/// `s` without its trailing `c`s (`str::trim_end_matches` on a char).
pub open spec fn trim_end_char(s: Seq<char>, c: char) -> Seq<char>
    decreases s.len(),
{
    if s.len() > 0 && s.last() == c {
        trim_end_char(s.drop_last(), c)
    } else {
        s
    }
}

/// Why a registry operation failed.
#[derive(Clone, Debug)]
pub enum RegistryError {
    /// Pulling artifacts from a registry is not available yet.
    PullNotImplemented,
    /// Pushing artifacts to a registry is not available yet.
    PushNotImplemented,
}

/// Image reference for one artifact role in a registry:
/// `<registry>/rhcos-<role>:<version>-<arch>` (trailing `/`s of the
/// registry dropped).
pub fn image_ref(registry: &str, role: &str, version: &str, arch: &str) -> (r: String)
    ensures
        r@ == trim_end_char(registry@, '/') + "/rhcos-"@ + role@ + ":"@ + version@ + "-"@ + arch@,
{
    let v = crate::text::chars_of(registry);
    let mut end = v.len();
    assert(v@.subrange(0, end as int) == v@);
    while end > 0 && v[end - 1] == '/'
        invariant
            end <= v@.len(),
            trim_end_char(registry@, '/') == trim_end_char(v@.subrange(0, end as int), '/'),
            v@ == registry@,
        decreases end,
    {
        assert(v@.subrange(0, end as int).drop_last() == v@.subrange(0, end - 1));
        end -= 1;
    }
    let mut r = crate::text::string_of(&v, 0, end);
    r.append("/rhcos-");
    r.append(role);
    r.append(":");
    r.append(version);
    r.append("-");
    r.append(arch);
    r
}

/// Pull one artifact's file out of its OCI image in the registry into
/// `dest`. Not available yet: always fails, so offline mode cannot source
/// from a registry.
pub fn pull_artifact(registry: &str, version: &str, arch: &str, file: &str, dest: &str) -> (r: Result<(), RegistryError>)
    ensures
        r matches Err(RegistryError::PullNotImplemented),
{
    Err(RegistryError::PullNotImplemented)
}

/// Push one artifact file as a single-layer OCI image to the registry. Not
/// available yet: always fails.
pub fn push_artifact(
    registry: &str,
    role: &str,
    version: &str,
    arch: &str,
    in_image_name: &str,
    src: &str,
) -> (r: Result<(), RegistryError>)
    ensures
        r matches Err(RegistryError::PushNotImplemented),
{
    Err(RegistryError::PushNotImplemented)
}

} // verus!
