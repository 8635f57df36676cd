//! The content-addressed blob store and its at-rest verification.
//!
//! Blobs are preserved verbatim under `<root>/blobs/sha256/<hex>`. Reading
//! and writing files happens outside this library; the naming, the digest
//! check before a blob is stored, and the bookkeeping of a verification run
//! are here.
use vstd::prelude::*;
use crate::coreos::{join_path, path_join};
use crate::digest::{digest_hex, digest_of, str_eq_ignore_ascii_case, Digest};
use crate::provenance::hex_or_whole;
use crate::text::eq_ignore_ascii_case;

verus! {

/// A content-addressed blob store rooted at `<root>/blobs/sha256/`.
#[derive(Clone, Debug)]
pub struct BlobStore {
    sha256_dir: String,
}

/// Why a blob was not stored.
#[derive(Clone, Debug)]
pub enum StoreError {
    /// The bytes do not hash to the digest they were to be stored under.
    DigestMismatch { expected: String, actual: String },
}

/// `<store_root>/blobs/sha256`.
pub open spec fn sha256_dir_of(store_root: Seq<char>) -> Seq<char> {
    path_join(store_root, "blobs/sha256"@)
}

impl BlobStore {
    /// The directory blobs are kept in.
    pub closed spec fn dir(&self) -> Seq<char> {
        self.sha256_dir@
    }

    /// The blob store of the store at `store_root` (the directory itself is
    /// created by the caller).
    pub fn at(store_root: &str) -> (b: BlobStore)
        ensures
            b.dir() == sha256_dir_of(store_root@),
    {
        BlobStore { sha256_dir: join_path(store_root, "blobs/sha256") }
    }

    /// On-disk path for a digest's blob (whether or not it exists yet).
    pub fn path_for(&self, digest: &Digest) -> (p: String)
        ensures
            p@ == path_join(self.dir(), digest_hex(digest.0@)),
    {
        join_path(self.sha256_dir.as_str(), digest.hex())
    }

    /// Check `bytes` hash to `expected` before they are stored under it, and
    /// name the path they go to. The caller writes them there (a no-op when
    /// the blob is already present: the name is the hash).
    pub fn put_bytes(&self, expected: &Digest, bytes: &[u8]) -> (r: Result<String, StoreError>)
        ensures
            if digest_of(bytes@) == expected.0@ {
                r matches Ok(p) && p@ == path_join(self.dir(), digest_hex(expected.0@))
            } else {
                r matches Err(StoreError::DigestMismatch { expected: e, actual: a }) && e@ == expected.0@ && a@
                    == digest_of(bytes@)
            },
    {
        let actual = Digest::from_bytes(bytes);
        if actual.0 != expected.0 {
            return Err(StoreError::DigestMismatch { expected: expected.0.clone(), actual: actual.0 });
        }
        Ok(self.path_for(expected))
    }
}

/// Outcome of verifying a store.
#[derive(Clone, Debug)]
pub struct VerifyReport {
    /// Image provenance docs checked.
    pub images: usize,
    /// Blobs whose sha256 matched their digest.
    pub blobs_ok: usize,
    /// Blobs missing or with a digest mismatch.
    pub blobs_fail: usize,
    /// Layers whose rebuilt verity root matched the recorded one.
    pub verity_ok: usize,
    /// Layers whose verity root mismatched or could not be rebuilt.
    pub verity_fail: usize,
    /// Human-readable failure descriptions.
    pub failures: Vec<String>,
}

impl Default for VerifyReport {
    fn default() -> (r: VerifyReport)
        ensures
            r.images == 0 && r.blobs_ok == 0 && r.blobs_fail == 0 && r.verity_ok == 0 && r.verity_fail == 0,
            r.failures@.len() == 0,
    {
        VerifyReport { images: 0, blobs_ok: 0, blobs_fail: 0, verity_ok: 0, verity_fail: 0, failures: Vec::new() }
    }
}

/// Path of the blob a digest names: `<store_root>/blobs/sha256/<hex>`, the
/// hex being the whole digest when it has no `:`.
pub fn blob_path(store_root: &str, digest: &str) -> (p: String)
    ensures
        p@ == path_join(sha256_dir_of(store_root@), hex_or_whole(digest@)),
{
    let dir = join_path(store_root, "blobs/sha256");
    let hex = crate::provenance::digest_hex(digest);
    join_path(dir.as_str(), hex.as_str())
}

impl VerifyReport {
    /// True if nothing failed.
    pub fn ok(&self) -> (r: bool)
        ensures
            r == (self.blobs_fail == 0 && self.verity_fail == 0),
    {
        self.blobs_fail == 0 && self.verity_fail == 0
    }

    /// Record the check of the blob named by `digest`, given its file's
    /// sha256 hex or why it could not be read. It passes when the hex equals
    /// the digest's hex ignoring ASCII case.
    pub fn record_blob(&mut self, digest: &str, actual: Result<String, String>)
        requires
            old(self).blobs_ok < usize::MAX,
            old(self).blobs_fail < usize::MAX,
        ensures
            final(self).images == old(self).images,
            final(self).verity_ok == old(self).verity_ok,
            final(self).verity_fail == old(self).verity_fail,
            match actual {
                Ok(a) => if eq_ignore_ascii_case(a@, hex_or_whole(digest@)) {
                    &&& final(self).blobs_ok == old(self).blobs_ok + 1
                    &&& final(self).blobs_fail == old(self).blobs_fail
                    &&& final(self).failures@ == old(self).failures@
                } else {
                    &&& final(self).blobs_ok == old(self).blobs_ok
                    &&& final(self).blobs_fail == old(self).blobs_fail + 1
                    &&& final(self).failures@.len() == old(self).failures@.len() + 1
                    &&& final(self).failures@.drop_last() == old(self).failures@
                    &&& final(self).failures@.last()@ == "blob "@ + digest@ + ": have "@ + a@ + ", want "@
                        + hex_or_whole(digest@)
                },
                Err(e) => {
                    &&& final(self).blobs_ok == old(self).blobs_ok
                    &&& final(self).blobs_fail == old(self).blobs_fail + 1
                    &&& final(self).failures@.len() == old(self).failures@.len() + 1
                    &&& final(self).failures@.drop_last() == old(self).failures@
                    &&& final(self).failures@.last()@ == "blob "@ + digest@ + ": "@ + e@
                },
            },
    {
        let expected = crate::provenance::digest_hex(digest);
        match actual {
            Ok(a) => {
                if str_eq_ignore_ascii_case(a.as_str(), expected.as_str()) {
                    self.blobs_ok = self.blobs_ok + 1;
                } else {
                    self.blobs_fail = self.blobs_fail + 1;
                    let mut m = String::from_str("blob ");
                    m.append(digest);
                    m.append(": have ");
                    m.append(a.as_str());
                    m.append(", want ");
                    m.append(expected.as_str());
                    self.failures.push(m);
                    assert(self.failures@.drop_last() == old(self).failures@);
                }
            },
            Err(e) => {
                self.blobs_fail = self.blobs_fail + 1;
                let mut m = String::from_str("blob ");
                m.append(digest);
                m.append(": ");
                m.append(e.as_str());
                self.failures.push(m);
                assert(self.failures@.drop_last() == old(self).failures@);
            },
        }
    }

    /// Record the check of the layer extracted at `dir_rel`, given the verity
    /// root rebuilt over it or why it could not be rebuilt. It passes when the
    /// root equals the recorded one exactly.
    pub fn record_verity(&mut self, dir_rel: &str, expected: &str, actual: Result<String, String>)
        requires
            old(self).verity_ok < usize::MAX,
            old(self).verity_fail < usize::MAX,
        ensures
            final(self).images == old(self).images,
            final(self).blobs_ok == old(self).blobs_ok,
            final(self).blobs_fail == old(self).blobs_fail,
            match actual {
                Ok(root) => if root@ == expected@ {
                    &&& final(self).verity_ok == old(self).verity_ok + 1
                    &&& final(self).verity_fail == old(self).verity_fail
                    &&& final(self).failures@ == old(self).failures@
                } else {
                    &&& final(self).verity_ok == old(self).verity_ok
                    &&& final(self).verity_fail == old(self).verity_fail + 1
                    &&& final(self).failures@.len() == old(self).failures@.len() + 1
                    &&& final(self).failures@.drop_last() == old(self).failures@
                    &&& final(self).failures@.last()@ == "verity "@ + dir_rel@ + ": have "@ + root@ + ", want "@
                        + expected@
                },
                Err(e) => {
                    &&& final(self).verity_ok == old(self).verity_ok
                    &&& final(self).verity_fail == old(self).verity_fail + 1
                    &&& final(self).failures@.len() == old(self).failures@.len() + 1
                    &&& final(self).failures@.drop_last() == old(self).failures@
                    &&& final(self).failures@.last()@ == "verity "@ + dir_rel@ + ": "@ + e@
                },
            },
    {
        match actual {
            Ok(root) => {
                if crate::mirror::str_is(root.as_str(), expected) {
                    self.verity_ok = self.verity_ok + 1;
                } else {
                    self.verity_fail = self.verity_fail + 1;
                    let mut m = String::from_str("verity ");
                    m.append(dir_rel);
                    m.append(": have ");
                    m.append(root.as_str());
                    m.append(", want ");
                    m.append(expected);
                    self.failures.push(m);
                    assert(self.failures@.drop_last() == old(self).failures@);
                }
            },
            Err(e) => {
                self.verity_fail = self.verity_fail + 1;
                let mut m = String::from_str("verity ");
                m.append(dir_rel);
                m.append(": ");
                m.append(e.as_str());
                self.failures.push(m);
                assert(self.failures@.drop_last() == old(self).failures@);
            },
        }
    }
}

} // verus!

verus! {

/// A blob the store accepts passes verification at rest: when
/// [`BlobStore::put_bytes`] accepts `bytes` under `expected`, the sha256 hex
/// of those bytes is what [`VerifyReport::record_blob`] counts as a match for
/// `expected`.
pub proof fn lemma_accepted_blob_verifies(bytes: Seq<u8>, expected: Seq<char>)
    requires
        digest_of(bytes) == expected,
    ensures
        eq_ignore_ascii_case(crate::digest::hex_lower(crate::digest::sha256(bytes)), hex_or_whole(expected)),
{
    crate::digest::lemma_digest_of_parts(bytes);
}

} // verus!

verus! {

/// Verification at rest reads a blob where the store put it: for a digest
/// in `algorithm:hex` form, [`blob_path`] names the same file as
/// [`BlobStore::path_for`] on the store at the same root.
pub proof fn lemma_blob_path_is_store_path(store_root: Seq<char>, digest: Seq<char>)
    requires
        crate::text::split_once(digest, ':') is Some,
    ensures
        path_join(sha256_dir_of(store_root), hex_or_whole(digest)) == path_join(
            sha256_dir_of(store_root),
            digest_hex(digest),
        ),
{
}

} // verus!

verus! {

/// A blob pulled through a [`crate::digest::Verifier`] that accepted it
/// (the compressed layers) passes verification at rest too: for a digest in
/// `algorithm:hex` form, the sha256 hex of the accepted bytes is what
/// [`VerifyReport::record_blob`] counts as a match.
pub proof fn lemma_verified_blob_verifies(bytes: Seq<u8>, expected: Seq<char>)
    requires
        crate::digest::digest_matches(expected, bytes),
        crate::text::split_once(expected, ':') is Some,
    ensures
        eq_ignore_ascii_case(crate::digest::hex_lower(crate::digest::sha256(bytes)), hex_or_whole(expected)),
{
}

} // verus!

verus! {

/// Whether `bytes` were taken into the store under the digest `d`: through
/// [`BlobStore::put_bytes`] (they hash to `d`) or through a
/// [`crate::digest::Verifier`] that accepted them (the compressed layers).
pub open spec fn accepted_under(d: Seq<char>, bytes: Seq<u8>) -> bool {
    digest_of(bytes) == d || crate::digest::digest_matches(d, bytes)
}

/// The digests of the blobs that verification at rest checks for an image
/// record: its manifest, its config, and each layer's compressed blob.
pub open spec fn recorded_blobs(p: crate::provenance::ImageProvenance) -> Seq<Seq<char>> {
    seq![p.manifest_digest@, p.config_digest@] + Seq::new(
        p.layers@.len(),
        |i: int| p.layers@[i].compressed_digest@,
    )
}

/// Every blob an image record names passes verification at rest, as long
/// as the store still holds what it took in: when `held` (the store's files
/// by path) holds, at the [`BlobStore::path_for`] path of each recorded
/// digest, bytes that were accepted under that digest, then the file that
/// [`blob_path`] names for the digest is one of them, and its sha256 hex is
/// what [`VerifyReport::record_blob`] counts as a match.
pub proof fn lemma_recorded_blobs_verify(
    store_root: Seq<char>,
    p: crate::provenance::ImageProvenance,
    held: Map<Seq<char>, Seq<u8>>,
)
    requires
        forall|k: int|
            0 <= k < recorded_blobs(p).len() ==> {
                let d = #[trigger] recorded_blobs(p)[k];
                let at = path_join(sha256_dir_of(store_root), digest_hex(d));
                &&& crate::text::split_once(d, ':') is Some
                &&& held.dom().contains(at)
                &&& accepted_under(d, held[at])
            },
    ensures
        forall|k: int|
            0 <= k < recorded_blobs(p).len() ==> {
                let d = #[trigger] recorded_blobs(p)[k];
                let at = path_join(sha256_dir_of(store_root), hex_or_whole(d));
                &&& held.dom().contains(at)
                &&& eq_ignore_ascii_case(crate::digest::hex_lower(crate::digest::sha256(held[at])), hex_or_whole(d))
            },
{
    assert forall|k: int| 0 <= k < recorded_blobs(p).len() implies {
        let d = #[trigger] recorded_blobs(p)[k];
        let at = path_join(sha256_dir_of(store_root), hex_or_whole(d));
        &&& held.dom().contains(at)
        &&& eq_ignore_ascii_case(crate::digest::hex_lower(crate::digest::sha256(held[at])), hex_or_whole(d))
    } by {
        let d = recorded_blobs(p)[k];
        lemma_blob_path_is_store_path(store_root, d);
        let at = path_join(sha256_dir_of(store_root), digest_hex(d));
        if digest_of(held[at]) == d {
            lemma_accepted_blob_verifies(held[at], d);
        } else {
            lemma_verified_blob_verifies(held[at], d);
        }
    }
}

} // verus!
