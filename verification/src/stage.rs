//! Staging the RHCOS artifact set into the local cache: the decisions of
//! online vs offline mode. Downloads and file access happen outside this
//! library, which says what to fetch from where and when staging failed.
use vstd::prelude::*;
use crate::artifacts::{artifact_table, artifact_view, artifacts, spec_filename, Artifact};
use crate::coreos::{join_path, path_join};
use crate::cli::{Mode, SourceArgs};
use crate::mirror::{artifact_url, spec_major_minor, spec_mirror_arch};
use crate::mirror::str_is;
use crate::sumfile::{sum_lookup, verify_against_sumfile, SumfileError};
use crate::text::{eq_ignore_ascii_case, lines};

verus! {

/// A staged artifact: its role plus the local cache path of the raw file.
#[derive(Clone, Debug)]
pub struct StagedArtifact {
    pub role: &'static str,
    pub in_image_name: &'static str,
    pub source_name: String,
    pub local_path: String,
}

/// The full staged set for one version/arch.
#[derive(Clone, Debug)]
pub struct Staged {
    pub version: String,
    pub arch: String,
    pub artifacts: Vec<StagedArtifact>,
}

/// Why staging failed.
#[derive(Clone, Debug)]
pub enum StageError {
    /// Offline mode needs an explicit version: "latest" needs the mirror.
    OfflineNeedsVersion,
    /// Offline mode, an artifact not in the cache, and no registry to pull it from.
    NotCached { name: String },
    /// Offline mode with no cached checksum list and verification not waived.
    OfflineNoChecksum,
    /// Required artifacts did not make it into the staged set.
    RequiredMissing { version: String, arch: String, roles: Vec<&'static str> },
    /// Nothing at all could be staged.
    NothingStaged { version: String, arch: String },
    /// A required artifact could not be fetched: a bootable image cannot be
    /// assembled without it.
    RequiredUnavailable { role: &'static str, name: String, version: String, arch: String, cause: String },
}

/// Which version to operate on.
#[derive(Clone, Debug)]
pub enum VersionChoice {
    /// The version given on the command line.
    Exact(String),
    /// The newest z-stream of `series` on the mirror (online mode only).
    LatestInSeries,
}

/// Resolve the concrete version to operate on: an explicit version wins;
/// otherwise online mode looks up the newest z-stream and offline mode fails.
pub fn resolve_version(src: &SourceArgs) -> (r: Result<VersionChoice, StageError>)
    ensures
        match src.version {
            Some(v) => r matches Ok(VersionChoice::Exact(x)) && x@ == v@,
            None => match src.mode {
                Mode::Online => r matches Ok(VersionChoice::LatestInSeries),
                Mode::Offline => r matches Err(StageError::OfflineNeedsVersion),
            },
        },
{
    match &src.version {
        Some(v) => Ok(VersionChoice::Exact(v.clone())),
        None => match src.mode {
            Mode::Online => Ok(VersionChoice::LatestInSeries),
            Mode::Offline => Err(StageError::OfflineNeedsVersion),
        },
    }
}

/// The cache subdirectory of one version/arch: `<version>-<arch>`.
pub fn cache_dir_name(version: &str, arch: &str) -> (r: String)
    ensures
        r@ == version@ + "-"@ + arch@,
{
    let mut r = String::from_str(version);
    r.append("-");
    r.append(arch);
    r
}

/// Where a missing artifact is fetched from.
#[derive(Clone, Debug)]
pub enum FetchSource {
    /// Download from this mirror URL.
    Mirror(String),
    /// Pull from this registry.
    Registry(String),
}

/// Where to fetch artifact file `name` of `version` that is not in the cache:
/// the mirror in online mode; the registry, if one is set, in offline mode.
pub fn fetch_one(src: &SourceArgs, version: &str, name: &str) -> (r: Result<FetchSource, StageError>)
    ensures
        match src.mode {
            Mode::Online => r matches Ok(FetchSource::Mirror(u)) && u@ == "https://mirror.openshift.com/pub/openshift-v4"@
                + "/"@ + spec_mirror_arch(src.arch@) + "/dependencies/rhcos/"@ + spec_major_minor(version@)
                + "/"@ + version@ + "/"@ + name@,
            Mode::Offline => match src.registry {
                Some(reg) => r matches Ok(FetchSource::Registry(x)) && x@ == reg@,
                None => r matches Err(StageError::NotCached { name: n }) && n@ == name@,
            },
        },
{
    match src.mode {
        Mode::Online => Ok(FetchSource::Mirror(artifact_url(version, src.arch.as_str(), name))),
        Mode::Offline => match &src.registry {
            Some(reg) => Ok(FetchSource::Registry(reg.clone())),
            None => Err(StageError::NotCached { name: String::from_str(name) }),
        },
    }
}

/// Where the checksum list comes from.
#[derive(Clone, Debug)]
pub enum SumfileSource {
    /// The copy already in the cache.
    Cached,
    /// Download it from this mirror URL.
    Download(String),
    /// Verification explicitly waived: stage without checking.
    SkipVerify,
}

/// Where the checksum list used to verify staged artifacts comes from, given
/// whether a non-empty `sha256sum.txt` is already cached. Online mode always
/// verifies (downloading the list when needed). Offline mode uses the cached
/// list; without one it fails closed unless verification was explicitly
/// waived with `insecure_skip_verify`.
pub fn stage_sumfile(src: &SourceArgs, version: &str, cached: bool) -> (r: Result<SumfileSource, StageError>)
    ensures
        match src.mode {
            Mode::Online => if cached {
                r matches Ok(SumfileSource::Cached)
            } else {
                r matches Ok(SumfileSource::Download(u)) && u@ == "https://mirror.openshift.com/pub/openshift-v4"@
                    + "/"@ + spec_mirror_arch(src.arch@) + "/dependencies/rhcos/"@ + spec_major_minor(version@)
                    + "/"@ + version@ + "/"@ + "sha256sum.txt"@
            },
            Mode::Offline => if cached {
                r matches Ok(SumfileSource::Cached)
            } else if src.insecure_skip_verify {
                r matches Ok(SumfileSource::SkipVerify)
            } else {
                r matches Err(StageError::OfflineNoChecksum)
            },
        },
{
    match src.mode {
        Mode::Online => {
            if cached {
                Ok(SumfileSource::Cached)
            } else {
                Ok(SumfileSource::Download(artifact_url(version, src.arch.as_str(), "sha256sum.txt")))
            }
        },
        Mode::Offline => {
            if cached {
                Ok(SumfileSource::Cached)
            } else if src.insecure_skip_verify {
                Ok(SumfileSource::SkipVerify)
            } else {
                Err(StageError::OfflineNoChecksum)
            }
        },
    }
}

/// What fetching artifact `art` (file `name`) having failed with `cause`
/// means for the run: a required artifact aborts it; an optional one is
/// skipped (`Ok`), the mirror not publishing every format for every release.
pub fn on_fetch_failure(art: Artifact, name: String, version: &str, arch: &str, cause: String) -> (r: Result<(), StageError>)
    ensures
        art.required ==> (r matches Err(StageError::RequiredUnavailable { role, name: n, version: v, arch: a, cause: c })
            && role == art.role && n == name && v@ == version@ && a@ == arch@ && c == cause),
        !art.required ==> r is Ok,
{
    if art.required {
        Err(
            StageError::RequiredUnavailable {
                role: art.role,
                name,
                version: String::from_str(version),
                arch: String::from_str(arch),
                cause,
            },
        )
    } else {
        Ok(())
    }
}

/// The staged record of artifact `art`, cached as file `name` at
/// `local_path`.
pub fn staged_artifact(art: Artifact, name: String, local_path: String) -> (s: StagedArtifact)
    ensures
        s.role == art.role,
        s.in_image_name == art.in_image_name,
        s.source_name == name,
        s.local_path == local_path,
{
    StagedArtifact { role: art.role, in_image_name: art.in_image_name, source_name: name, local_path }
}

/// Whether some staged artifact has role `role`.
pub open spec fn staged_has_role(staged: Seq<StagedArtifact>, role: Seq<char>) -> bool {
    exists|i: int| 0 <= i < staged.len() && #[trigger] staged[i].role@ == role
}

/// The roles of the required entries of `table` that no staged artifact has,
/// in table order.
pub open spec fn missing_in(
    table: Seq<(Seq<char>, Seq<char>, Seq<char>, bool)>,
    staged: Seq<StagedArtifact>,
) -> Seq<Seq<char>>
    decreases table.len(),
{
    if table.len() == 0 {
        Seq::empty()
    } else {
        let before = missing_in(table.drop_last(), staged);
        let t = table.last();
        if t.3 && !staged_has_role(staged, t.0) {
            before.push(t.0)
        } else {
            before
        }
    }
}

proof fn lemma_none_missing(table: Seq<(Seq<char>, Seq<char>, Seq<char>, bool)>, staged: Seq<StagedArtifact>)
    ensures
        missing_in(table, staged).len() == 0 <==> forall|i: int|
            0 <= i < table.len() && #[trigger] table[i].3 ==> staged_has_role(staged, table[i].0),
    decreases table.len(),
{
    if table.len() > 0 {
        let init = table.drop_last();
        lemma_none_missing(init, staged);
        assert forall|i: int| 0 <= i < init.len() implies #[trigger] init[i] == table[i] by {}
        if missing_in(table, staged).len() == 0 {
            assert forall|i: int| 0 <= i < table.len() && #[trigger] table[i].3 implies staged_has_role(
                staged,
                table[i].0,
            ) by {
                if i < init.len() {
                    assert(init[i] == table[i]);
                }
            }
        }
        if forall|i: int| 0 <= i < table.len() && #[trigger] table[i].3 ==> staged_has_role(staged, table[i].0) {
            assert forall|i: int| 0 <= i < init.len() && #[trigger] init[i].3 implies staged_has_role(
                staged,
                init[i].0,
            ) by {
                assert(init[i] == table[i]);
            }
            assert(table.last() == table[table.len() - 1]);
        }
    }
}

fn has_role(staged: &Vec<StagedArtifact>, role: &str) -> (r: bool)
    ensures
        r == staged_has_role(staged@, role@),
{
    let mut i: usize = 0;
    while i < staged.len()
        invariant
            i <= staged@.len(),
            forall|j: int| 0 <= j < i ==> #[trigger] staged@[j].role@ != role@,
        decreases staged@.len() - i,
    {
        if str_is(staged[i].role, role) {
            return true;
        }
        i += 1;
    }
    false
}

/// The required roles missing from a staged set, in artifact-table order.
pub fn missing_required(staged: &Vec<StagedArtifact>) -> (r: Vec<&'static str>)
    ensures
        Seq::new(r@.len(), |i: int| r@[i]@) == missing_in(artifact_table(), staged@),
{
    let all = artifacts();
    let mut out: Vec<&'static str> = Vec::new();
    let mut i: usize = 0;
    while i < all.len()
        invariant
            i <= all@.len() == artifact_table().len(),
            forall|k: int| 0 <= k < all@.len() ==> artifact_view(#[trigger] all@[k]) == artifact_table()[k],
            Seq::new(out@.len(), |k: int| out@[k]@) == missing_in(artifact_table().take(i as int), staged@),
        decreases all@.len() - i,
    {
        assert(artifact_view(all@[i as int]) == artifact_table()[i as int]);
        assert(artifact_table().take(i + 1).drop_last() == artifact_table().take(i as int));
        let ghost before = Seq::new(out@.len(), |k: int| out@[k]@);
        if all[i].required && !has_role(staged, all[i].role) {
            out.push(all[i].role);
            assert(Seq::new(out@.len(), |k: int| out@[k]@) == before.push(all@[i as int].role@));
        }
        i += 1;
    }
    assert(artifact_table().take(all@.len() as int) == artifact_table());
    out
}

/// Close a staging run: every required role must have been staged, and at
/// least one artifact must have been.
pub fn finish_stage(version: String, arch: String, staged: Vec<StagedArtifact>) -> (r: Result<Staged, StageError>)
    ensures
        if missing_in(artifact_table(), staged@).len() > 0 {
            r matches Err(StageError::RequiredMissing { version: v, arch: a, roles }) && v == version && a
                == arch && Seq::new(roles@.len(), |i: int| roles@[i]@) == missing_in(artifact_table(), staged@)
        } else if staged@.len() == 0 {
            r matches Err(StageError::NothingStaged { version: v, arch: a }) && v == version && a == arch
        } else {
            r matches Ok(s) && s.version == version && s.arch == arch && s.artifacts == staged
        },
        r is Ok ==> forall|i: int|
            0 <= i < artifact_table().len() && #[trigger] artifact_table()[i].3 ==> staged_has_role(
                staged@,
                artifact_table()[i].0,
            ),
{
    let missing = missing_required(&staged);
    proof {
        lemma_none_missing(artifact_table(), staged@);
    }
    if missing.len() > 0 {
        return Err(StageError::RequiredMissing { version, arch, roles: missing });
    }
    if staged.len() == 0 {
        return Err(StageError::NothingStaged { version, arch });
    }
    Ok(Staged { version, arch, artifacts: staged })
}

} // verus!

verus! {

// ── A staging run ────────────────────────────────────────────────────────

/// Whether `a` is table entry `i` staged for `version`/`arch` in cache
/// directory `dir`: its role and in-image name, its mirror file name, and
/// the cache path `<dir>/<file name>`.
pub open spec fn staged_as(a: StagedArtifact, i: int, version: Seq<char>, arch: Seq<char>, dir: Seq<char>) -> bool {
    let t = artifact_table()[i];
    &&& a.role@ == t.0
    &&& a.in_image_name@ == t.2
    &&& a.source_name@ == spec_filename(t.1, version, arch)
    &&& a.local_path@ == path_join(dir, spec_filename(t.1, version, arch))
}

/// Whether `staged` holds table entries picked at the strictly increasing
/// positions `picked`, all below `n`, each staged as [`staged_as`] says.
pub open spec fn staged_in_order(
    staged: Seq<StagedArtifact>,
    picked: Seq<int>,
    n: int,
    version: Seq<char>,
    arch: Seq<char>,
    dir: Seq<char>,
) -> bool {
    &&& picked.len() == staged.len()
    &&& forall|k: int| 0 <= k < picked.len() ==> 0 <= #[trigger] picked[k] < n
    &&& forall|k: int| 0 <= k < picked.len() ==> staged_as(#[trigger] staged[k], picked[k], version, arch, dir)
    &&& forall|a: int, b: int| 0 <= a < b < picked.len() ==> #[trigger] picked[a] < #[trigger] picked[b]
}

/// What a finished staging run holds: every required role; table entries
/// in table order, each staged as [`staged_as`] says for `version`/`arch`
/// in cache directory `dir`; and each role once.
pub open spec fn staged_set(s: Staged, version: Seq<char>, arch: Seq<char>, dir: Seq<char>) -> bool {
    &&& forall|i: int|
        0 <= i < artifact_table().len() && #[trigger] artifact_table()[i].3 ==> staged_has_role(
            s.artifacts@,
            artifact_table()[i].0,
        )
    &&& exists|picked: Seq<int>|
        #[trigger] staged_in_order(s.artifacts@, picked, artifact_table().len() as int, version, arch, dir)
    &&& forall|a: int, b: int|
        0 <= a < b < s.artifacts@.len() ==> #[trigger] s.artifacts@[a].role@ != #[trigger] s.artifacts@[b].role@
}

/// Whether a file named `name` whose sha256 reads `actual` matches the
/// checksum list `body`: the list has an entry for the name, and the hashes
/// are equal but for the case of their letters.
pub open spec fn listed_match(body: Seq<char>, name: Seq<char>, actual: Seq<char>) -> bool {
    sum_lookup(lines(body), name) matches Some(expected) && eq_ignore_ascii_case(actual, expected)
}

/// One staging of the artifact set for a version and architecture: the
/// artifacts are taken in table order, each either staged or (when optional
/// and unavailable) skipped. When a checksum list is in use, an artifact is
/// only staged once its file's sha256 matched the list.
pub struct StagingRun {
    version: String,
    arch: String,
    cache_dir: String,
    next: usize,
    staged: Vec<StagedArtifact>,
    sums: Option<String>,
    picked: Ghost<Seq<int>>,
    hashes: Ghost<Seq<Seq<char>>>,
}

impl StagingRun {
    /// The run's invariant: it has dealt with at most the whole table, and
    /// what it staged is table entries in order, staged as [`staged_as`]
    /// says.
    pub closed spec fn wf(&self) -> bool {
        &&& self.next <= artifact_table().len()
        &&& staged_in_order(self.staged@, self.picked@, self.next as int, self.version@, self.arch@, self.cache_dir@)
        &&& self.hashes@.len() == self.staged@.len()
        &&& self.sums matches Some(body) ==> forall|k: int|
            0 <= k < self.staged@.len() ==> listed_match(body@, #[trigger] self.staged@[k].source_name@, self.hashes@[k])
    }

    /// The checksum list staged files are verified against, if one is in use.
    pub closed spec fn sumfile(&self) -> Option<Seq<char>> {
        match self.sums {
            Some(b) => Some(b@),
            None => None,
        }
    }

    /// The sha256 each staged file was found to have, when a checksum list
    /// is in use.
    pub closed spec fn hashes(&self) -> Seq<Seq<char>> {
        self.hashes@
    }

    /// The version being staged.
    pub closed spec fn version(&self) -> Seq<char> {
        self.version@
    }

    /// The architecture being staged.
    pub closed spec fn arch(&self) -> Seq<char> {
        self.arch@
    }

    /// The cache directory of this version/arch.
    pub closed spec fn dir(&self) -> Seq<char> {
        self.cache_dir@
    }

    /// How many table entries have been dealt with.
    pub closed spec fn position(&self) -> int {
        self.next as int
    }

    /// The artifacts staged so far.
    pub closed spec fn staged(&self) -> Seq<StagedArtifact> {
        self.staged@
    }

    /// Start staging `version` for `src`'s architecture into the cache
    /// directory `<cache>/<version>-<arch>`.
    pub fn new(version: String, src: &SourceArgs) -> (r: StagingRun)
        ensures
            r.version() == version@,
            r.arch() == src.arch@,
            r.dir() == path_join(src.cache@, version@ + "-"@ + src.arch@),
            r.position() == 0,
            r.staged().len() == 0,
            r.sumfile() is None,
            r.wf(),
    {
        let name = cache_dir_name(version.as_str(), src.arch.as_str());
        let cache_dir = join_path(src.cache.as_str(), name.as_str());
        StagingRun {
            version,
            arch: src.arch.clone(),
            cache_dir,
            next: 0,
            staged: Vec::new(),
            sums: None,
            picked: Ghost(Seq::empty()),
            hashes: Ghost(Seq::empty()),
        }
    }

    /// Verify every artifact staged from now on against the checksum list
    /// `body`; set before anything is staged.
    pub fn check_against(&mut self, body: String)
        requires
            old(self).wf(),
            old(self).staged().len() == 0,
        ensures
            final(self).wf(),
            final(self).sumfile() == Some(body@),
            final(self).version() == old(self).version(),
            final(self).arch() == old(self).arch(),
            final(self).dir() == old(self).dir(),
            final(self).position() == old(self).position(),
            final(self).staged() == old(self).staged(),
    {
        self.sums = Some(body);
    }

    /// Whether a checksum list is in use.
    pub fn has_sumfile(&self) -> (r: bool)
        ensures
            r == self.sumfile() is Some,
    {
        self.sums.is_some()
    }

    /// The cache directory of this version/arch.
    pub fn cache_dir(&self) -> (d: &String)
        ensures
            d@ == self.dir(),
    {
        &self.cache_dir
    }

    /// The artifact to stage next, with its mirror file name and cache path;
    /// `None` once every table entry has been dealt with.
    pub fn pending(&self) -> (r: Option<(Artifact, String, String)>)
        requires
            self.wf(),
        ensures
            self.position() < artifact_table().len() ==> (r matches Some((a, name, local)) && artifact_view(a)
                == artifact_table()[self.position()] && name@ == spec_filename(
                artifact_table()[self.position()].1,
                self.version(),
                self.arch(),
            ) && local@ == path_join(self.dir(), name@)),
            self.position() >= artifact_table().len() ==> r is None,
    {
        let all = artifacts();
        if self.next >= all.len() {
            return None;
        }
        let a = all[self.next];
        assert(artifact_view(all@[self.next as int]) == artifact_table()[self.next as int]);
        let name = a.filename(self.version.as_str(), self.arch.as_str());
        let local = join_path(self.cache_dir.as_str(), name.as_str());
        Some((a, name, local))
    }

    /// The pending artifact is in the cache and no checksum list is in use:
    /// stage it.
    pub fn record_staged(&mut self)
        requires
            old(self).wf(),
            old(self).position() < artifact_table().len(),
            old(self).sumfile() is None,
        ensures
            final(self).wf(),
            final(self).version() == old(self).version(),
            final(self).arch() == old(self).arch(),
            final(self).dir() == old(self).dir(),
            final(self).sumfile() == old(self).sumfile(),
            final(self).position() == old(self).position() + 1,
            final(self).staged().len() == old(self).staged().len() + 1,
            final(self).staged().drop_last() == old(self).staged(),
            staged_as(final(self).staged().last(), old(self).position(), old(self).version(), old(self).arch(), old(self).dir()),
    {
        self.stage_pending(Ghost(Seq::empty()));
    }

    /// The pending artifact is in the cache and its file's sha256 reads
    /// `actual`: stage it if it matches the checksum list in use; otherwise
    /// the run is left as it was and the mismatch (or the missing entry) is
    /// returned, as [`verify_against_sumfile`] reports it.
    pub fn record_verified(&mut self, actual: &str) -> (r: Result<(), SumfileError>)
        requires
            old(self).wf(),
            old(self).position() < artifact_table().len(),
            old(self).sumfile() is Some,
        ensures
            final(self).wf(),
            final(self).version() == old(self).version(),
            final(self).arch() == old(self).arch(),
            final(self).dir() == old(self).dir(),
            final(self).sumfile() == old(self).sumfile(),
            ({
                let body = old(self).sumfile()->Some_0;
                let name = spec_filename(artifact_table()[old(self).position()].1, old(self).version(), old(self).arch());
                if listed_match(body, name, actual@) {
                    &&& r is Ok
                    &&& final(self).position() == old(self).position() + 1
                    &&& final(self).staged().len() == old(self).staged().len() + 1
                    &&& final(self).staged().drop_last() == old(self).staged()
                    &&& staged_as(final(self).staged().last(), old(self).position(), old(self).version(), old(self).arch(), old(self).dir())
                    &&& final(self).hashes() == old(self).hashes().push(actual@)
                } else {
                    &&& final(self).position() == old(self).position()
                    &&& final(self).staged() == old(self).staged()
                    &&& match sum_lookup(lines(body), name) {
                        None => r matches Err(SumfileError::NoEntry { name: n }) && n@ == name,
                        Some(expected) => r matches Err(SumfileError::Mismatch { name: n, expected: e, actual: a })
                            && n@ == name && e@ == expected && a@ == actual@,
                    }
                }
            }),
    {
        let name = match self.pending() {
            Some((_, name, _)) => name,
            None => {
                return Ok(());
            },
        };
        let checked = match &self.sums {
            Some(body) => verify_against_sumfile(name.as_str(), body.as_str(), actual),
            None => Ok(()),
        };
        match checked {
            Err(e) => Err(e),
            Ok(()) => {
                self.stage_pending(Ghost(actual@));
                Ok(())
            },
        }
    }

    /// Stage the pending artifact, whose file's sha256 was `hash` (checked
    /// against the list in use, if any).
    fn stage_pending(&mut self, hash: Ghost<Seq<char>>)
        requires
            old(self).wf(),
            old(self).position() < artifact_table().len(),
            old(self).sumfile() matches Some(body) ==> listed_match(
                body,
                spec_filename(artifact_table()[old(self).position()].1, old(self).version(), old(self).arch()),
                hash@,
            ),
        ensures
            final(self).wf(),
            final(self).version() == old(self).version(),
            final(self).arch() == old(self).arch(),
            final(self).dir() == old(self).dir(),
            final(self).sumfile() == old(self).sumfile(),
            final(self).position() == old(self).position() + 1,
            final(self).staged().len() == old(self).staged().len() + 1,
            final(self).staged().drop_last() == old(self).staged(),
            staged_as(final(self).staged().last(), old(self).position(), old(self).version(), old(self).arch(), old(self).dir()),
            final(self).hashes() == old(self).hashes().push(hash@),
    {
        let (a, name, local) = match self.pending() {
            Some(p) => p,
            None => {
                return;
            },
        };
        let entry = staged_artifact(a, name, local);
        let ghost pos = self.next as int;
        let ghost picked = self.picked@.push(pos);
        let ghost before = self.staged@;
        let ghost hashes = self.hashes@.push(hash@);
        self.staged.push(entry);
        self.next = self.next + 1;
        self.picked = Ghost(picked);
        self.hashes = Ghost(hashes);
        proof {
            assert(self.staged@.drop_last() == before);
            if let Some(body) = &self.sums {
                assert forall|k: int| 0 <= k < self.staged@.len() implies listed_match(
                    body@,
                    #[trigger] self.staged@[k].source_name@,
                    self.hashes@[k],
                ) by {
                    if k < before.len() {
                        assert(self.staged@[k] == before[k]);
                    }
                }
            }
            assert forall|k: int| 0 <= k < picked.len() implies staged_as(
                #[trigger] self.staged@[k],
                picked[k],
                self.version@,
                self.arch@,
                self.cache_dir@,
            ) by {
                if k < before.len() {
                    assert(self.staged@[k] == before[k]);
                }
            }
        }
    }

    /// Fetching the pending artifact failed with `cause`: a required one
    /// aborts the run (which is left as it was); an optional one is skipped.
    pub fn record_unavailable(&mut self, cause: String) -> (r: Result<(), StageError>)
        requires
            old(self).wf(),
            old(self).position() < artifact_table().len(),
        ensures
            final(self).wf(),
            final(self).version() == old(self).version(),
            final(self).arch() == old(self).arch(),
            final(self).dir() == old(self).dir(),
            final(self).staged() == old(self).staged(),
            final(self).sumfile() == old(self).sumfile(),
            artifact_table()[old(self).position()].3 ==> final(self).position() == old(self).position() && (
            r matches Err(StageError::RequiredUnavailable { role, name, version, arch, cause: c }) && role@
                == artifact_table()[old(self).position()].0 && name@ == spec_filename(
                artifact_table()[old(self).position()].1,
                old(self).version(),
                old(self).arch(),
            ) && version@ == old(self).version() && arch@ == old(self).arch() && c == cause),
            !artifact_table()[old(self).position()].3 ==> final(self).position() == old(self).position() + 1
                && r is Ok,
            final(self).wf(),
    {
        let (a, name, _local) = match self.pending() {
            Some(p) => p,
            None => {
                return Ok(());
            },
        };
        match on_fetch_failure(a, name, self.version.as_str(), self.arch.as_str(), cause) {
            Err(e) => Err(e),
            Ok(()) => {
                self.next = self.next + 1;
                Ok(())
            },
        }
    }

    /// Close the run: every required role must have been staged, and at
    /// least one artifact must have been. The staged set is the table
    /// entries staged, in table order, each role once, each named by its
    /// mirror file name and kept at `<cache>/<version>-<arch>/<file name>`.
    pub fn finish(self) -> (r: Result<Staged, StageError>)
        requires
            self.wf(),
        ensures
            if missing_in(artifact_table(), self.staged()).len() > 0 {
                r matches Err(StageError::RequiredMissing { version: v, arch: a, roles }) && v@ == self.version()
                    && a@ == self.arch() && Seq::new(roles@.len(), |i: int| roles@[i]@) == missing_in(
                    artifact_table(),
                    self.staged(),
                )
            } else if self.staged().len() == 0 {
                r matches Err(StageError::NothingStaged { version: v, arch: a }) && v@ == self.version() && a@
                    == self.arch()
            } else {
                r matches Ok(s) && s.version@ == self.version() && s.arch@ == self.arch() && s.artifacts@
                    == self.staged()
            },
            r matches Ok(s) ==> staged_set(s, self.version(), self.arch(), self.dir()),
            r matches Ok(s) ==> (self.sumfile() matches Some(body) ==> forall|k: int|
                0 <= k < s.artifacts@.len() ==> listed_match(body, #[trigger] s.artifacts@[k].source_name@, self.hashes()[k])),
    {
        proof {
            crate::artifacts::lemma_artifact_table();
            let p = self.picked@;
            let st = self.staged@;
            assert(staged_in_order(st, p, artifact_table().len() as int, self.version@, self.arch@, self.cache_dir@));
            assert forall|a: int, b: int| 0 <= a < b < st.len() implies #[trigger] st[a].role@ != #[trigger] st[b].role@ by {
                assert(p[a] < p[b]);
                assert(staged_as(st[a], p[a], self.version@, self.arch@, self.cache_dir@));
                assert(staged_as(st[b], p[b], self.version@, self.arch@, self.cache_dir@));
            }
        }
        let ghost (v, a, d, st, p) = (self.version@, self.arch@, self.cache_dir@, self.staged@, self.picked@);
        let r = finish_stage(self.version, self.arch, self.staged);
        proof {
            if r is Ok {
                assert(r->Ok_0.artifacts@ == st);
                assert(staged_in_order(r->Ok_0.artifacts@, p, artifact_table().len() as int, v, a, d));
            }
        }
        r
    }
}

} // verus!
