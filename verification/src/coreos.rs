//! Locating the CoreOS live ISO in a packed store.
//!
//! `machine-os-images` ships `coreos/coreos-<arch>.iso` alongside a
//! `.sha256` sidecar. A store is content-addressed and shared, so it can hold
//! several releases and architectures at once; selection is anchored in
//! provenance, and an ambiguous or unmatched selection is an error — an ISO
//! is never picked arbitrarily. Reading the store and copying the ISO happen
//! outside this library; the selection rules are here.
use vstd::prelude::*;
use crate::mirror::str_is;
use crate::provenance::{ComponentProvenance, ImageProvenance, ReleaseProvenance, hex_or_whole, digest_hex};
use crate::text::{chars_of, ranges_eq, starts_with};

verus! {

/// Selects which release's ISO to emit from a store that may hold several.
/// An empty selector means "there must be exactly one candidate".
#[derive(Clone, Debug)]
pub struct IsoSelector {
    /// Match releases whose image reference contains this text (e.g.
    /// `4.18.30`), or whose release manifest digest starts with it.
    pub release: Option<String>,
    /// Match releases of this architecture, in either the OCI spelling
    /// (`amd64`) or the kernel/CoreOS one (`x86_64`).
    pub arch: Option<String>,
}

impl Default for IsoSelector {
    fn default() -> (s: IsoSelector)
        ensures
            s.release is None,
            s.arch is None,
    {
        IsoSelector { release: None, arch: None }
    }
}

/// The emitted CoreOS ISO.
#[derive(Clone, Debug)]
pub struct CoreosIso {
    /// Where it was written.
    pub out: String,
    /// Source path inside the store.
    pub source: String,
    /// sha256 (verified against the `.sha256` sidecar if present).
    pub sha256: String,
    /// Size in bytes.
    pub size: u64,
    /// The release this ISO was resolved from, when the store recorded one.
    pub release: Option<String>,
}

/// One ISO the store could emit, with the release it came from.
#[derive(Clone, Debug)]
pub struct IsoCandidate {
    /// Path of the ISO.
    pub iso: String,
    /// Label of the release it was reached from, if any.
    pub release: Option<String>,
}

/// Why no ISO could be emitted.
#[derive(Clone, Debug)]
pub enum IsoError {
    /// The store has no ISO and no release provenance either.
    NothingInStore,
    /// No release in the store matched the selector; lists the releases held.
    NoMatch { release: Option<String>, arch: Option<String>, available: Vec<String> },
    /// More than one ISO matched; lists them in path order.
    Ambiguous { candidates: Vec<IsoCandidate> },
    /// The ISO's sha256 differs from its sidecar's.
    Sha256Mismatch { have: String, want: String },
}

/// CoreOS/kernel arch name for an OCI platform arch.
pub open spec fn spec_coreos_arch(arch: Seq<char>) -> Seq<char> {
    if arch == "amd64"@ {
        "x86_64"@
    } else if arch == "arm64"@ {
        "aarch64"@
    } else {
        arch
    }
}

/// The OCI platform name of either spelling, so `x86_64` and `amd64` select
/// the same release.
pub open spec fn spec_oci_arch(arch: Seq<char>) -> Seq<char> {
    if arch == "x86_64"@ {
        "amd64"@
    } else if arch == "aarch64"@ {
        "arm64"@
    } else {
        arch
    }
}

/// CoreOS/kernel arch name for an OCI platform arch.
pub fn coreos_arch(arch: &str) -> (r: &str)
    ensures
        r@ == spec_coreos_arch(arch@),
{
    if str_is(arch, "amd64") {
        "x86_64"
    } else if str_is(arch, "arm64") {
        "aarch64"
    } else {
        arch
    }
}

/// Normalize either spelling to the OCI platform name.
pub fn oci_arch(arch: &str) -> (r: &str)
    ensures
        r@ == spec_oci_arch(arch@),
{
    if str_is(arch, "x86_64") {
        "amd64"
    } else if str_is(arch, "aarch64") {
        "arm64"
    } else {
        arch
    }
}

/// Whether `p` occurs in `s` (`str::contains`).
pub open spec fn contains_seq(s: Seq<char>, p: Seq<char>) -> bool {
    exists|i: int| 0 <= i <= s.len() - p.len() && #[trigger] s.subrange(i, i + p.len()) == p
}

/// `s.contains(p)`.
pub fn str_contains(s: &str, p: &str) -> (r: bool)
    ensures
        r == contains_seq(s@, p@),
{
    let v = chars_of(s);
    let w = chars_of(p);
    let n = v.len();
    let m = w.len();
    assert(w@.subrange(0, m as int) == w@);
    if m > n {
        return false;
    }
    let mut i: usize = 0;
    loop
        invariant
            m <= n == v@.len(),
            m == w@.len(),
            w@.subrange(0, m as int) == w@,
            v@ == s@,
            w@ == p@,
            i <= n - m,
            forall|j: int| 0 <= j < i ==> #[trigger] v@.subrange(j, j + m) != w@,
        decreases n - m - i,
    {
        if ranges_eq(&v, i, i + m, &w, 0, m) {
            return true;
        }
        if i == n - m {
            return false;
        }
        i += 1;
    }
}

/// Whether a release satisfies the selector: its architecture matches in
/// either spelling, and its image reference contains the release text or
/// its manifest digest hex starts with it.
pub open spec fn spec_release_matches(rel: ReleaseProvenance, sel: IsoSelector) -> bool {
    &&& match sel.arch {
        Some(want) => spec_oci_arch(want@) == spec_oci_arch(rel.arch@),
        None => true,
    }
    &&& match sel.release {
        Some(want) => contains_seq(rel.release_image@, want@) || starts_with(
            hex_or_whole(rel.release_manifest_digest@),
            want@,
        ),
        None => true,
    }
}

/// Does this release satisfy the selector?
pub fn release_matches(rel: &ReleaseProvenance, sel: &IsoSelector) -> (r: bool)
    ensures
        r == spec_release_matches(*rel, *sel),
        sel.arch matches Some(w) && spec_oci_arch(w@) != spec_oci_arch(rel.arch@) ==> !r,
{
    match &sel.arch {
        Some(want) => {
            if !str_is(oci_arch(want.as_str()), oci_arch(rel.arch.as_str())) {
                return false;
            }
        },
        None => {},
    }
    match &sel.release {
        Some(want) => {
            let hex = digest_hex(rel.release_manifest_digest.as_str());
            if !str_contains(rel.release_image.as_str(), want.as_str()) && !str_starts_with(
                hex.as_str(),
                want.as_str(),
            ) {
                return false;
            }
        },
        None => {},
    }
    true
}

/// `s.starts_with(p)`.
pub fn str_starts_with(s: &str, p: &str) -> (r: bool)
    ensures
        r == starts_with(s@, p@),
{
    let v = chars_of(s);
    let w = chars_of(p);
    if w.len() > v.len() {
        return false;
    }
    assert(w@.subrange(0, w@.len() as int) == w@);
    assert(v@.take(w@.len() as int) == v@.subrange(0, w@.len() as int));
    ranges_eq(&v, 0, w.len(), &w, 0, w.len())
}

/// The label a release's candidates carry: `<release_image> (<arch>)`.
pub fn release_label(rel: &ReleaseProvenance) -> (r: String)
    ensures
        r@ == rel.release_image@ + " ("@ + rel.arch@ + ")"@,
{
    let mut r = rel.release_image.clone();
    r.append(" (");
    r.append(rel.arch.as_str());
    r.append(")");
    r
}

/// The ISO file a release of OCI arch `arch` ships: `coreos-<kernel-arch>.iso`.
pub fn iso_file_name(arch: &str) -> (r: String)
    ensures
        r@ == "coreos-"@ + spec_coreos_arch(arch@) + ".iso"@,
{
    let mut r = String::from_str("coreos-");
    r.append(coreos_arch(arch));
    r.append(".iso");
    r
}

/// Whether a component is a machine-OS image (its name contains `machine-os`),
/// the one that ships the ISO.
pub fn is_machine_os(name: &str) -> (r: bool)
    ensures
        r == contains_seq(name@, "machine-os"@),
{
    str_contains(name, "machine-os")
}

/// Filename-level arch filter for stores without release provenance: any
/// file passes without an arch; with one, the file must be named
/// `coreos-<kernel-arch>.iso` for it (either spelling accepted).
pub fn arch_matches_filename(file_name: Option<&str>, arch: Option<&str>) -> (r: bool)
    ensures
        match arch {
            None => r,
            Some(a) => r == (file_name matches Some(n) && n@ == "coreos-"@ + spec_coreos_arch(
                spec_oci_arch(a@),
            ) + ".iso"@),
        },
{
    match arch {
        None => true,
        Some(a) => {
            let want = iso_file_name(oci_arch(a));
            match file_name {
                Some(n) => str_is(n, want.as_str()),
                None => false,
            }
        },
    }
}

} // verus!

verus! {

/// `PathBuf::join` on Unix: an absolute `part` replaces `base`; otherwise
/// `part` is appended, with a `/` between unless `base` is empty or already
/// ends with one.
pub open spec fn path_join(base: Seq<char>, part: Seq<char>) -> Seq<char> {
    if part.len() > 0 && part[0] == '/' {
        part
    } else if base.len() == 0 || base.last() == '/' {
        base + part
    } else {
        base + seq!['/'] + part
    }
}

/// `Path::new(base).join(part)` as text.
pub fn join_path(base: &str, part: &str) -> (r: String)
    ensures
        r@ == path_join(base@, part@),
{
    let b = chars_of(base);
    let p = chars_of(part);
    if p.len() > 0 && p[0] == '/' {
        return String::from_str(part);
    }
    let mut r = String::from_str(base);
    proof {
        reveal_strlit("/");
    }
    if !(b.len() == 0 || b[b.len() - 1] == '/') {
        r.append("/");
    }
    r.append(part);
    r
}

/// Where an image's layers would hold the ISO `want`, topmost layer first:
/// `<store_root>/<layer dir>/coreos/<want>` for each layer, in reverse of
/// the recorded (base-first) order — the topmost occurrence wins.
pub open spec fn iso_search_path(store_root: Seq<char>, dir: Seq<char>, want: Seq<char>) -> Seq<char> {
    path_join(path_join(path_join(store_root, dir), "coreos"@), want)
}

/// The candidate ISO paths of one machine-OS image, topmost layer first.
pub fn iso_search_paths(store_root: &str, prov: &ImageProvenance, want: &str) -> (r: Vec<String>)
    ensures
        r@.len() == prov.layers@.len(),
        forall|k: int|
            0 <= k < r@.len() ==> #[trigger] r@[k]@ == iso_search_path(
                store_root@,
                prov.layers@[prov.layers@.len() - 1 - k].dir@,
                want@,
            ),
{
    let mut r: Vec<String> = Vec::new();
    let n = prov.layers.len();
    let mut i = n;
    while i > 0
        invariant
            i <= n == prov.layers@.len(),
            r@.len() == n - i,
            forall|k: int|
                0 <= k < r@.len() ==> #[trigger] r@[k]@ == iso_search_path(
                    store_root@,
                    prov.layers@[n - 1 - k].dir@,
                    want@,
                ),
        decreases i,
    {
        let a = join_path(store_root, prov.layers[i - 1].dir.as_str());
        let b = join_path(a.as_str(), "coreos");
        let c = join_path(b.as_str(), want);
        r.push(c);
        i -= 1;
    }
    r
}

// ── Choosing among candidates ────────────────────────────────────────────

/// The sort key of a path character: `/` before every other character, so
/// that the character order of paths is their component order.
pub open spec fn path_char_key(c: char) -> int {
    if c == '/' {
        -1
    } else {
        (c as u32) as int
    }
}

/// Path order: lexicographic by [`path_char_key`]. For paths without empty
/// or `.` components this is `Path`'s component-wise order.
pub open spec fn path_before(a: Seq<char>, b: Seq<char>) -> bool
    decreases a.len(),
{
    if a.len() == 0 {
        b.len() > 0
    } else if b.len() == 0 {
        false
    } else if a[0] != b[0] {
        path_char_key(a[0]) < path_char_key(b[0])
    } else {
        path_before(a.drop_first(), b.drop_first())
    }
}

proof fn lemma_path_key_injective(c: char, d: char)
    ensures
        c != d ==> path_char_key(c) != path_char_key(d),
{
}

proof fn lemma_path_before_irreflexive(a: Seq<char>)
    ensures
        !path_before(a, a),
    decreases a.len(),
{
    if a.len() > 0 {
        lemma_path_before_irreflexive(a.drop_first());
    }
}

proof fn lemma_path_before_transitive(a: Seq<char>, b: Seq<char>, c: Seq<char>)
    requires
        path_before(a, b),
        path_before(b, c),
    ensures
        path_before(a, c),
    decreases a.len(),
{
    if a.len() > 0 && b.len() > 0 && c.len() > 0 {
        lemma_path_key_injective(a[0], c[0]);
        if a[0] == b[0] && b[0] == c[0] {
            lemma_path_before_transitive(a.drop_first(), b.drop_first(), c.drop_first());
        }
    }
}

proof fn lemma_path_before_total(a: Seq<char>, b: Seq<char>)
    ensures
        a != b ==> path_before(a, b) || path_before(b, a),
    decreases a.len(),
{
    if a.len() > 0 && b.len() > 0 {
        lemma_path_key_injective(a[0], b[0]);
        if a[0] == b[0] {
            lemma_path_before_total(a.drop_first(), b.drop_first());
            if a.drop_first() == b.drop_first() {
                assert(a == seq![a[0]] + a.drop_first());
                assert(b == seq![b[0]] + b.drop_first());
            }
        }
    } else if a.len() == 0 && b.len() == 0 {
        assert(a == b);
    }
}

/// Whether candidate `i` is the first with its path.
pub open spec fn first_with_path(cs: Seq<IsoCandidate>, i: int) -> bool {
    forall|j: int| 0 <= j < i ==> #[trigger] cs[j].iso@ != cs[i].iso@
}

/// The candidates' distinct paths, each with the release label of its first
/// occurrence, in strictly increasing path order — the listing of an
/// ambiguous selection.
pub open spec fn is_path_listing(cs: Seq<IsoCandidate>, list: Seq<IsoCandidate>) -> bool {
    &&& forall|a: int, b: int| 0 <= a < b < list.len() ==> path_before(list[a].iso@, list[b].iso@)
    &&& forall|k: int|
        0 <= k < list.len() ==> exists|i: int|
            0 <= i < cs.len() && first_with_path(cs, i) && #[trigger] list[k].iso@ == cs[i].iso@
                && list[k].release == cs[i].release
    &&& forall|i: int|
        #![trigger cs[i]]
        0 <= i < cs.len() ==> exists|k: int| 0 <= k < list.len() && #[trigger] list[k].iso@ == cs[i].iso@
}

/// Whether every candidate names the same path as the first.
pub open spec fn single_path(cs: Seq<IsoCandidate>) -> bool {
    forall|i: int| 0 <= i < cs.len() ==> #[trigger] cs[i].iso@ == cs[0].iso@
}

} // verus!

verus! {

/// Whether `a` sorts before `b` in path order.
fn chars_path_before(a: &Vec<char>, b: &Vec<char>) -> (r: bool)
    ensures
        r == path_before(a@, b@),
{
    let mut i: usize = 0;
    assert(a@.skip(0) == a@);
    assert(b@.skip(0) == b@);
    while i < a.len() && i < b.len() && a[i] == b[i]
        invariant
            i <= a@.len(),
            i <= b@.len(),
            path_before(a@, b@) == path_before(a@.skip(i as int), b@.skip(i as int)),
        decreases a@.len() - i,
    {
        assert(a@.skip(i as int).drop_first() == a@.skip(i + 1));
        assert(b@.skip(i as int).drop_first() == b@.skip(i + 1));
        i += 1;
    }
    if i == a.len() {
        i < b.len()
    } else if i == b.len() {
        false
    } else {
        let ka: i64 = if a[i] == '/' {
            -1
        } else {
            a[i] as u32 as i64
        };
        let kb: i64 = if b[i] == '/' {
            -1
        } else {
            b[i] as u32 as i64
        };
        assert(ka == path_char_key(a@[i as int]));
        assert(kb == path_char_key(b@[i as int]));
        assert(a@.skip(i as int)[0] == a@[i as int]);
        assert(b@.skip(i as int)[0] == b@[i as int]);
        ka < kb
    }
}

fn path_is_before(a: &String, b: &String) -> (r: bool)
    ensures
        r == path_before(a@, b@),
{
    let va = chars_of(a.as_str());
    let vb = chars_of(b.as_str());
    chars_path_before(&va, &vb)
}

/// Inserting `x` at `pos` keeps a strictly path-sorted list sorted when
/// everything before `pos` sorts before `x` and `x` before everything after.
proof fn lemma_insert_sorted(l: Seq<IsoCandidate>, pos: int, x: IsoCandidate)
    requires
        0 <= pos <= l.len(),
        forall|a: int, b: int| 0 <= a < b < l.len() ==> path_before(l[a].iso@, l[b].iso@),
        pos > 0 ==> path_before(l[pos - 1].iso@, x.iso@),
        pos < l.len() ==> path_before(x.iso@, l[pos].iso@),
    ensures
        forall|a: int, b: int|
            0 <= a < b < l.insert(pos, x).len() ==> path_before(
                l.insert(pos, x)[a].iso@,
                l.insert(pos, x)[b].iso@,
            ),
{
    l.insert_ensures(pos, x);
    let m = l.insert(pos, x);
    assert forall|a: int, b: int| 0 <= a < b < m.len() implies path_before(m[a].iso@, m[b].iso@) by {
        if b < pos {
            assert(m[a] == l[a] && m[b] == l[b]);
        } else if b == pos {
            assert(m[a] == l[a]);
            if a < pos - 1 {
                lemma_path_before_transitive(l[a].iso@, l[pos - 1].iso@, x.iso@);
            }
        } else if a == pos {
            assert(m[b] == l[b - 1]);
            if b - 1 > pos {
                lemma_path_before_transitive(x.iso@, l[pos].iso@, l[b - 1].iso@);
            }
        } else if a < pos {
            assert(m[a] == l[a] && m[b] == l[b - 1]);
        } else {
            assert(m[a] == l[a - 1] && m[b] == l[b - 1]);
        }
    }
}

/// Whether `e` is the error for a selection that matched nothing: with no
/// release provenance in the store, that the store has nothing; otherwise
/// the selector and the labels of the releases the store holds, in order.
pub open spec fn is_no_candidates_error(e: IsoError, releases: Seq<ReleaseProvenance>, sel: IsoSelector) -> bool {
    if releases.len() == 0 {
        e is NothingInStore
    } else {
        match e {
            IsoError::NoMatch { release, arch, available } => {
                &&& release == sel.release
                &&& arch == sel.arch
                &&& available@.len() == releases.len()
                &&& forall|k: int|
                    0 <= k < available@.len() ==> #[trigger] available@[k]@ == releases[k].release_image@ + " ("@
                        + releases[k].arch@ + ")"@
            },
            _ => false,
        }
    }
}

/// The error for a selection that matched nothing: with no release
/// provenance in the store, that the store has nothing; otherwise the
/// selector and the releases the store does hold.
pub fn no_candidates_error(releases: &Vec<ReleaseProvenance>, sel: &IsoSelector) -> (e: IsoError)
    ensures
        is_no_candidates_error(e, releases@, *sel),
{
    if releases.len() == 0 {
        return IsoError::NothingInStore;
    }
    let mut available: Vec<String> = Vec::new();
    let mut i: usize = 0;
    while i < releases.len()
        invariant
            i <= releases@.len(),
            available@.len() == i,
            forall|k: int|
                0 <= k < i ==> #[trigger] available@[k]@ == releases@[k].release_image@ + " ("@
                    + releases@[k].arch@ + ")"@,
        decreases releases@.len() - i,
    {
        available.push(release_label(&releases[i]));
        i += 1;
    }
    IsoError::NoMatch { release: sel.release.clone(), arch: sel.arch.clone(), available }
}

/// `out` is the path listing of the first `i` candidates, with `src[k]`
/// the candidate `out[k]` was taken from and `loc[j]` where candidate `j`'s
/// path is listed.
pub open spec fn tracks(
    cs: Seq<IsoCandidate>,
    i: int,
    out: Seq<IsoCandidate>,
    src: Seq<int>,
    loc: Seq<int>,
) -> bool {
    &&& 0 <= i <= cs.len()
    &&& forall|a: int, b: int| 0 <= a < b < out.len() ==> path_before(out[a].iso@, out[b].iso@)
    &&& src.len() == out.len()
    &&& forall|k: int|
        0 <= k < out.len() ==> 0 <= #[trigger] src[k] < i && first_with_path(cs, src[k]) && out[k].iso@
            == cs[src[k]].iso@ && out[k].release == cs[src[k]].release
    &&& loc.len() == i
    &&& forall|j: int| 0 <= j < i ==> 0 <= #[trigger] loc[j] < out.len() && out[loc[j]].iso@ == cs[j].iso@
}

proof fn lemma_track_none_dup(cs: Seq<IsoCandidate>, i: int, out: Seq<IsoCandidate>, src: Seq<int>, loc: Seq<int>)
    requires
        tracks(cs, i, out, src, loc),
        i < cs.len(),
        forall|q: int| 0 <= q < out.len() ==> #[trigger] out[q].iso@ != cs[i].iso@,
    ensures
        first_with_path(cs, i),
{
    assert forall|j: int| 0 <= j < i implies #[trigger] cs[j].iso@ != cs[i].iso@ by {
        assert(out[loc[j]].iso@ == cs[j].iso@);
    }
}

proof fn lemma_track_insert(cs: Seq<IsoCandidate>, i: int, out: Seq<IsoCandidate>, src: Seq<int>, loc: Seq<int>, pos: int)
    requires
        tracks(cs, i, out, src, loc),
        i < cs.len(),
        first_with_path(cs, i),
        0 <= pos <= out.len(),
        pos > 0 ==> path_before(out[pos - 1].iso@, cs[i].iso@),
        pos < out.len() ==> path_before(cs[i].iso@, out[pos].iso@),
    ensures
        tracks(
            cs,
            i + 1,
            out.insert(pos, cs[i]),
            src.insert(pos, i),
            Seq::new(
                (i + 1) as nat,
                |j: int|
                    if j == i {
                        pos
                    } else if loc[j] >= pos {
                        loc[j] + 1
                    } else {
                        loc[j]
                    },
            ),
        ),
{
    lemma_insert_sorted(out, pos, cs[i]);
    out.insert_ensures(pos, cs[i]);
    src.insert_ensures(pos, i);
    let m = out.insert(pos, cs[i]);
    let src2 = src.insert(pos, i);
    let loc2 = Seq::new(
        (i + 1) as nat,
        |j: int|
            if j == i {
                pos
            } else if loc[j] >= pos {
                loc[j] + 1
            } else {
                loc[j]
            },
    );
    assert forall|k: int| 0 <= k < m.len() implies 0 <= #[trigger] src2[k] < i + 1 && first_with_path(
        cs,
        src2[k],
    ) && m[k].iso@ == cs[src2[k]].iso@ && m[k].release == cs[src2[k]].release by {
        if k < pos {
            assert(m[k] == out[k] && src2[k] == src[k]);
        } else if k > pos {
            assert(m[k] == out[k - 1] && src2[k] == src[k - 1]);
        }
    }
    assert forall|j: int| 0 <= j < i + 1 implies 0 <= #[trigger] loc2[j] < m.len() && m[loc2[j]].iso@
        == cs[j].iso@ by {
        if j < i {
            if loc[j] >= pos {
                assert(m[loc[j] + 1] == out[loc[j]]);
            } else {
                assert(m[loc[j]] == out[loc[j]]);
            }
        }
    }
}

proof fn lemma_track_done(cs: Seq<IsoCandidate>, out: Seq<IsoCandidate>, src: Seq<int>, loc: Seq<int>)
    requires
        tracks(cs, cs.len() as int, out, src, loc),
        cs.len() > 0,
    ensures
        single_path(cs) ==> out.len() == 1 && out[0].iso@ == cs[0].iso@ && out[0].release == cs[0].release,
        !single_path(cs) ==> out.len() >= 2,
        is_path_listing(cs, out),
{
    let q0 = loc[0];
    assert(out[q0].iso@ == cs[0].iso@);
    if single_path(cs) {
        if out.len() > 1 {
            let other = if q0 == 0 {
                1int
            } else {
                0int
            };
            assert(out[other].iso@ == cs[src[other]].iso@);
            assert(cs[src[other]].iso@ == cs[0].iso@);
            lemma_path_before_irreflexive(cs[0].iso@);
            if other < q0 {
                assert(path_before(out[other].iso@, out[q0].iso@));
            } else {
                assert(path_before(out[q0].iso@, out[other].iso@));
            }
        }
        let j = src[0];
        assert(cs[j].iso@ == cs[0].iso@);
        if j > 0 {
            assert(cs[0].iso@ != cs[j].iso@);
        }
        assert(first_with_path(cs, 0));
        assert forall|k: int| 0 <= k < out.len() implies exists|i: int|
            0 <= i < cs.len() && first_with_path(cs, i) && #[trigger] out[k].iso@ == cs[i].iso@
                && out[k].release == cs[i].release by {
            assert(k == 0);
            assert(out[0].iso@ == cs[0].iso@ && out[0].release == cs[0].release);
        }
        assert forall|i: int|
            #![trigger cs[i]]
            0 <= i < cs.len() implies exists|k: int| 0 <= k < out.len() && #[trigger] out[k].iso@ == cs[i].iso@ by {
            assert(out[0].iso@ == cs[i].iso@);
        }
    } else {
        let w = choose|w: int| 0 <= w < cs.len() && #[trigger] cs[w].iso@ != cs[0].iso@;
        let qw = loc[w];
        assert(out[qw].iso@ == cs[w].iso@);
        assert(qw != q0);
        assert forall|k: int| 0 <= k < out.len() implies exists|j: int|
            0 <= j < cs.len() && first_with_path(cs, j) && #[trigger] out[k].iso@ == cs[j].iso@
                && out[k].release == cs[j].release by {
            assert(0 <= src[k] < cs.len());
        }
        assert forall|j: int|
            #![trigger cs[j]]
            0 <= j < cs.len() implies exists|k: int| 0 <= k < out.len() && #[trigger] out[k].iso@ == cs[j].iso@ by {
            assert(out[loc[j]].iso@ == cs[j].iso@);
        }
    }
}

/// A copy of a candidate.
fn copy_candidate(c: &IsoCandidate) -> (r: IsoCandidate)
    ensures
        r == *c,
{
    IsoCandidate {
        iso: c.iso.clone(),
        release: match &c.release {
            Some(l) => Some(l.clone()),
            None => None,
        },
    }
}

/// Where a not-yet-listed candidate goes in a path-sorted listing, or that
/// its path is listed already.
fn listing_position(out: &Vec<IsoCandidate>, cand: &IsoCandidate) -> (r: (bool, usize))
    requires
        forall|a: int, b: int| 0 <= a < b < out@.len() ==> path_before(out@[a].iso@, out@[b].iso@),
    ensures
        r.0 ==> r.1 < out@.len() && out@[r.1 as int].iso@ == cand.iso@,
        !r.0 ==> forall|q: int| 0 <= q < out@.len() ==> #[trigger] out@[q].iso@ != cand.iso@,
        !r.0 ==> r.1 <= out@.len() && (r.1 > 0 ==> path_before(out@[r.1 - 1].iso@, cand.iso@)) && (r.1
            < out@.len() ==> path_before(cand.iso@, out@[r.1 as int].iso@)),
{
    let mut k: usize = 0;
    while k < out.len()
        invariant
            k <= out@.len(),
            forall|q: int| 0 <= q < k ==> #[trigger] out@[q].iso@ != cand.iso@,
        decreases out@.len() - k,
    {
        if out[k].iso == cand.iso {
            return (true, k);
        }
        k += 1;
    }
    let mut pos: usize = 0;
    while pos < out.len() && path_is_before(&out[pos].iso, &cand.iso)
        invariant
            pos <= out@.len(),
            forall|a: int, b: int| 0 <= a < b < out@.len() ==> path_before(out@[a].iso@, out@[b].iso@),
            pos > 0 ==> path_before(out@[pos - 1].iso@, cand.iso@),
        decreases out@.len() - pos,
    {
        pos += 1;
    }
    proof {
        if pos < out@.len() {
            lemma_path_before_total(out@[pos as int].iso@, cand.iso@);
            assert(out@[pos as int].iso@ != cand.iso@);
        }
    }
    (false, pos)
}

/// The candidates' listing by path: the distinct paths in increasing path
/// order, each with the release label of its first occurrence (a stable
/// sort by path followed by merging equal paths).
pub fn path_listing(candidates: &Vec<IsoCandidate>) -> (out: Vec<IsoCandidate>)
    ensures
        is_path_listing(candidates@, out@),
        candidates@.len() == 0 ==> out@.len() == 0,
        candidates@.len() > 0 && single_path(candidates@) ==> out@.len() == 1 && out@[0].iso@
            == candidates@[0].iso@ && out@[0].release == candidates@[0].release,
        candidates@.len() > 0 && !single_path(candidates@) ==> out@.len() >= 2,
{
    let ghost cs = candidates@;
    let mut out: Vec<IsoCandidate> = Vec::new();
    if candidates.len() == 0 {
        return out;
    }
    let mut i: usize = 0;
    let ghost mut src: Seq<int> = Seq::empty();
    let ghost mut loc: Seq<int> = Seq::empty();
    while i < candidates.len()
        invariant
            cs == candidates@,
            tracks(cs, i as int, out@, src, loc),
        decreases cs.len() - i,
    {
        let cand = &candidates[i];
        let (dup, pos) = listing_position(&out, cand);
        if dup {
            proof {
                assert forall|j: int| 0 <= j < i + 1 implies 0 <= #[trigger] loc.push(pos as int)[j] < out@.len()
                    && out@[loc.push(pos as int)[j]].iso@ == cs[j].iso@ by {
                    if j < i {
                        assert(loc.push(pos as int)[j] == loc[j]);
                    }
                }
                loc = loc.push(pos as int);
            }
        } else {
            proof {
                lemma_track_none_dup(cs, i as int, out@, src, loc);
                lemma_track_insert(cs, i as int, out@, src, loc, pos as int);
                src = src.insert(pos as int, i as int);
                loc = Seq::new(
                    (i + 1) as nat,
                    |j: int|
                        if j == i {
                            pos as int
                        } else if loc[j] >= pos {
                            loc[j] + 1
                        } else {
                            loc[j]
                        },
                );
            }
            out.insert(pos, copy_candidate(cand));
        }
        i += 1;
    }
    proof {
        lemma_track_done(cs, out@, src, loc);
    }
    out
}

/// Choose the ISO to emit from every candidate the store offers. Several
/// candidates naming the same path count once (the first one's release label
/// is kept). Exactly one path is chosen; none is an error that lists the
/// store's releases; several is an error that lists them in path order.
pub fn select_iso(candidates: &Vec<IsoCandidate>, releases: &Vec<ReleaseProvenance>, sel: &IsoSelector) -> (r: Result<IsoCandidate, IsoError>)
    ensures
        candidates@.len() == 0 ==> (r matches Err(e) && is_no_candidates_error(e, releases@, *sel)),
        candidates@.len() > 0 ==> if single_path(candidates@) {
            r matches Ok(c) && c.iso@ == candidates@[0].iso@ && c.release == candidates@[0].release
        } else {
            r matches Err(IsoError::Ambiguous { candidates: l }) && l@.len() >= 2 && is_path_listing(
                candidates@,
                l@,
            )
        },
{
    if candidates.len() == 0 {
        return Err(no_candidates_error(releases, sel));
    }
    let out = path_listing(candidates);
    if out.len() == 1 {
        Ok(copy_candidate(&out[0]))
    } else {
        Err(IsoError::Ambiguous { candidates: out })
    }
}

} // verus!

verus! {

/// The first whitespace-separated word of `s`, or empty when there is none
/// (`s.split_whitespace().next().unwrap_or_default()`).
pub open spec fn first_word(s: Seq<char>) -> Seq<char> {
    let t = crate::text::trim_start(s);
    match crate::text::find_first_ws(t) {
        Some(i) => t.take(i),
        None => t,
    }
}

/// Check an ISO's sha256 against the contents of its `.sha256` sidecar: the
/// sidecar's first word, when there is one, must equal the ISO's sha256
/// ignoring ASCII case.
pub fn check_sidecar(sha256: &str, sidecar: &str) -> (r: Result<(), IsoError>)
    ensures
        if first_word(sidecar@).len() > 0 && !crate::text::eq_ignore_ascii_case(sha256@, first_word(sidecar@)) {
            r matches Err(IsoError::Sha256Mismatch { have, want }) && have@ == sha256@ && want@ == first_word(
                sidecar@,
            )
        } else {
            r is Ok
        },
{
    let v = chars_of(sidecar);
    let len = v.len();
    assert(v@.subrange(0, len as int) == v@);
    let a = crate::text::strip_start_at(&v, 0, len, false);
    let end = match crate::text::find_ws_in(&v, a, len) {
        Some(i) => {
            assert(v@.subrange(a as int, len as int).take(i - a) == v@.subrange(a as int, i as int));
            i
        },
        None => len,
    };
    let want = crate::text::string_of(&v, a, end);
    if want.unicode_len() > 0 && !crate::digest::str_eq_ignore_ascii_case(sha256, want.as_str()) {
        Err(IsoError::Sha256Mismatch { have: String::from_str(sha256), want })
    } else {
        Ok(())
    }
}

} // verus!

verus! {

// ── Reading the store's release records ──────────────────────────────────

/// Whether a file under `provenance/` is a release record:
/// `release-*.json`.
pub fn is_release_record_name(name: &str) -> (r: bool)
    ensures
        r == (starts_with(name@, "release-"@) && ends_with(name@, ".json"@)),
{
    str_starts_with(name, "release-") && str_ends_with(name, ".json")
}

/// Whether a file under a layer's `coreos/` is a CoreOS ISO:
/// `coreos-*.iso`.
pub fn is_iso_name(name: &str) -> (r: bool)
    ensures
        r == (starts_with(name@, "coreos-"@) && ends_with(name@, ".iso"@)),
{
    str_starts_with(name, "coreos-") && str_ends_with(name, ".iso")
}

/// Whether `s` ends with `p` (`str::ends_with`).
pub open spec fn ends_with(s: Seq<char>, p: Seq<char>) -> bool {
    p.len() <= s.len() && s.skip(s.len() - p.len()) == p
}

/// `s.ends_with(p)`.
pub fn str_ends_with(s: &str, p: &str) -> (r: bool)
    ensures
        r == ends_with(s@, p@),
{
    let vs = chars_of(s);
    let vp = chars_of(p);
    if vp.len() > vs.len() {
        return false;
    }
    let off = vs.len() - vp.len();
    let mut i: usize = 0;
    while i < vp.len()
        invariant
            vs@ == s@,
            vp@ == p@,
            off + vp@.len() == vs@.len() <= usize::MAX,
            i <= vp@.len(),
            forall|j: int| 0 <= j < i ==> vs@[off + j] == vp@[j],
        decreases vp@.len() - i,
    {
        assert(off + i < vs@.len());
        if vs[off + i] != vp[i] {
            assert(s@.skip(off as int)[i as int] != p@[i as int]);
            return false;
        }
        i += 1;
    }
    assert(s@.skip(off as int) =~= p@);
    true
}

/// `String`'s order: lexicographic by character (the byte order of UTF-8
/// text is the order of its characters).
pub open spec fn text_before(a: Seq<char>, b: Seq<char>) -> bool
    decreases a.len(),
{
    if a.len() == 0 {
        b.len() > 0
    } else if b.len() == 0 {
        false
    } else if a[0] != b[0] {
        (a[0] as u32) < (b[0] as u32)
    } else {
        text_before(a.drop_first(), b.drop_first())
    }
}

proof fn lemma_text_before_transitive(a: Seq<char>, b: Seq<char>, c: Seq<char>)
    requires
        text_before(a, b),
        text_before(b, c),
    ensures
        text_before(a, c),
    decreases a.len(),
{
    if a.len() > 0 && b.len() > 0 && c.len() > 0 {
        if a[0] == b[0] && b[0] == c[0] {
            lemma_text_before_transitive(a.drop_first(), b.drop_first(), c.drop_first());
        }
    }
}

proof fn lemma_char_code_injective(c: char, d: char)
    ensures
        c != d ==> (c as u32) != (d as u32),
{
}

proof fn lemma_text_before_total(a: Seq<char>, b: Seq<char>)
    ensures
        a != b ==> text_before(a, b) || text_before(b, a),
    decreases a.len(),
{
    if a.len() > 0 && b.len() > 0 {
        lemma_char_code_injective(a[0], b[0]);
        if a[0] == b[0] {
            lemma_text_before_total(a.drop_first(), b.drop_first());
            if a.drop_first() == b.drop_first() {
                assert(a == seq![a[0]] + a.drop_first());
                assert(b == seq![b[0]] + b.drop_first());
            }
        }
    } else if a.len() == 0 && b.len() == 0 {
        assert(a == b);
    }
}

/// Whether `a` sorts before `b` in `String` order.
fn text_is_before(a: &str, b: &str) -> (r: bool)
    ensures
        r == text_before(a@, b@),
{
    let va = chars_of(a);
    let vb = chars_of(b);
    let mut i: usize = 0;
    assert(va@.skip(0) == va@);
    assert(vb@.skip(0) == vb@);
    while i < va.len() && i < vb.len() && va[i] == vb[i]
        invariant
            va@ == a@,
            vb@ == b@,
            i <= va@.len(),
            i <= vb@.len(),
            text_before(a@, b@) == text_before(va@.skip(i as int), vb@.skip(i as int)),
        decreases va@.len() - i,
    {
        assert(va@.skip(i as int).drop_first() == va@.skip(i + 1));
        assert(vb@.skip(i as int).drop_first() == vb@.skip(i + 1));
        i += 1;
    }
    if i == va.len() {
        i < vb.len()
    } else if i == vb.len() {
        false
    } else {
        assert(va@.skip(i as int)[0] == va@[i as int]);
        assert(vb@.skip(i as int)[0] == vb@[i as int]);
        (va[i] as u32) < (vb[i] as u32)
    }
}

/// Whether release `i` of `rs` is listed before release `j`: by release
/// image in `String` order, and in the order they were read among equal
/// ones.
pub open spec fn release_before(rs: Seq<ReleaseProvenance>, i: int, j: int) -> bool {
    ||| text_before(rs[i].release_image@, rs[j].release_image@)
    ||| (rs[i].release_image@ == rs[j].release_image@ && i < j)
}

proof fn lemma_release_before_transitive(rs: Seq<ReleaseProvenance>, i: int, j: int, k: int)
    requires
        release_before(rs, i, j),
        release_before(rs, j, k),
    ensures
        release_before(rs, i, k),
{
    let (a, b, c) = (rs[i].release_image@, rs[j].release_image@, rs[k].release_image@);
    if text_before(a, b) && text_before(b, c) {
        lemma_text_before_transitive(a, b, c);
    }
}

/// The order in which a store's release records are listed: by release
/// image, ties kept in the order they were read (a stable sort), so errors
/// and selection are deterministic. The result lists each record's index
/// once.
pub fn release_order(releases: &Vec<ReleaseProvenance>) -> (order: Vec<usize>)
    ensures
        forall|k: int| 0 <= k < order@.len() ==> order@[k] < releases@.len(),
        forall|a: int, b: int|
            0 <= a < b < order@.len() ==> release_before(releases@, order@[a] as int, order@[b] as int),
        forall|i: usize| i < releases@.len() ==> #[trigger] order@.contains(i),
{
    let n = releases.len();
    let mut order: Vec<usize> = Vec::new();
    let mut i: usize = 0;
    while i < n
        invariant
            i <= n == releases@.len(),
            forall|k: int| 0 <= k < order@.len() ==> order@[k] < i,
            forall|a: int, b: int|
                0 <= a < b < order@.len() ==> release_before(releases@, order@[a] as int, order@[b] as int),
            forall|x: usize| x < i ==> #[trigger] order@.contains(x),
        decreases n - i,
    {
        let mut pos: usize = 0;
        while pos < order.len() && !text_is_before(
            releases[i].release_image.as_str(),
            releases[order[pos]].release_image.as_str(),
        )
            invariant
                i < n == releases@.len(),
                pos <= order@.len(),
                forall|k: int| 0 <= k < order@.len() ==> order@[k] < i,
                forall|k: int| 0 <= k < pos ==> release_before(releases@, order@[k] as int, i as int),
            decreases order@.len() - pos,
        {
            proof {
                let a = releases@[order@[pos as int] as int].release_image@;
                let b = releases@[i as int].release_image@;
                lemma_text_before_total(a, b);
            }
            pos += 1;
        }
        let ghost old_order = order@;
        proof {
            lemma_insert_release(releases@, old_order, pos as int, i);
        }
        order.insert(pos, i);
        proof {
            assert forall|x: usize| x < i + 1 implies #[trigger] order@.contains(x) by {
                if x == i {
                    assert(order@[pos as int] == i);
                } else {
                    assert(old_order.contains(x));
                    let k = choose|k: int| 0 <= k < old_order.len() && old_order[k] == x;
                    if k < pos {
                        assert(order@[k] == x);
                    } else {
                        assert(order@[k + 1] == x);
                    }
                }
            }
        }
        i += 1;
    }
    order
}

/// Inserting `x` at `pos` keeps a release listing sorted when everything
/// before `pos` is listed before `x` and `x` before everything after.
proof fn lemma_insert_release(rs: Seq<ReleaseProvenance>, l: Seq<usize>, pos: int, x: usize)
    requires
        0 <= pos <= l.len(),
        forall|a: int, b: int| 0 <= a < b < l.len() ==> release_before(rs, l[a] as int, l[b] as int),
        forall|k: int| 0 <= k < pos ==> release_before(rs, l[k] as int, x as int),
        forall|k: int| 0 <= k < l.len() ==> l[k] < x,
        pos < l.len() ==> text_before(rs[x as int].release_image@, rs[l[pos] as int].release_image@),
    ensures
        forall|a: int, b: int|
            0 <= a < b < l.insert(pos, x).len() ==> release_before(
                rs,
                l.insert(pos, x)[a] as int,
                l.insert(pos, x)[b] as int,
            ),
{
    l.insert_ensures(pos, x);
    let m = l.insert(pos, x);
    assert forall|a: int, b: int| 0 <= a < b < m.len() implies release_before(rs, m[a] as int, m[b] as int) by {
        if b < pos {
            assert(m[a] == l[a] && m[b] == l[b]);
        } else if b == pos {
            assert(m[a] == l[a]);
        } else if a == pos {
            assert(m[b] == l[b - 1]);
            if b - 1 > pos {
                lemma_release_before_transitive(rs, x as int, l[pos] as int, l[b - 1] as int);
            }
        } else if a < pos {
            assert(m[a] == l[a] && m[b] == l[b - 1]);
        } else {
            assert(m[a] == l[a - 1] && m[b] == l[b - 1]);
        }
    }
}

} // verus!

verus! {

/// Either spelling of an architecture names the same one: translating to the
/// other spelling and normalizing gives what normalizing gives, in both
/// directions, so `x86_64` and `amd64` select the same releases and ISO.
pub proof fn lemma_arch_spellings_agree(arch: Seq<char>)
    ensures
        spec_oci_arch(spec_coreos_arch(arch)) == spec_oci_arch(arch),
        spec_coreos_arch(spec_oci_arch(arch)) == spec_coreos_arch(arch),
        spec_oci_arch(spec_oci_arch(arch)) == spec_oci_arch(arch),
{
    reveal_strlit("amd64");
    reveal_strlit("arm64");
    reveal_strlit("x86_64");
    reveal_strlit("aarch64");
    assert("amd64"@.len() == 5 && "arm64"@.len() == 5 && "x86_64"@.len() == 6 && "aarch64"@.len() == 7);
    assert("amd64"@[1] == 'm' && "arm64"@[1] == 'r');
}

} // verus!

verus! {

// ── Gathering candidates ─────────────────────────────────────────────────

/// A candidate as plain values: its path and release label.
pub open spec fn candidate_view(c: IsoCandidate) -> (Seq<char>, Option<Seq<char>>) {
    (
        c.iso@,
        match c.release {
            Some(r) => Some(r@),
            None => None,
        },
    )
}

/// `<release_image> (<arch>)`, the label of a release's candidates.
pub open spec fn label_of(rel: ReleaseProvenance) -> Seq<char> {
    rel.release_image@ + " ("@ + rel.arch@ + ")"@
}

/// Whether a scanned file passes the selector's arch filter.
pub open spec fn scanned_file_ok(file_name: Option<String>, arch: Option<String>) -> bool {
    match arch {
        None => true,
        Some(a) => match file_name {
            Some(n) => n@ == "coreos-"@ + spec_coreos_arch(spec_oci_arch(a@)) + ".iso"@,
            None => false,
        },
    }
}

/// The candidates of a store without release provenance: each scanned ISO
/// (path, file name) that passes the arch filter, with no release.
pub open spec fn scanned_candidates(
    scanned: Seq<(String, Option<String>)>,
    arch: Option<String>,
) -> Seq<(Seq<char>, Option<Seq<char>>)>
    decreases scanned.len(),
{
    if scanned.len() == 0 {
        Seq::empty()
    } else {
        let rest = scanned_candidates(scanned.drop_last(), arch);
        if scanned_file_ok(scanned.last().1, arch) {
            rest.push((scanned.last().0@, None))
        } else {
            rest
        }
    }
}

/// The ISOs of one release as candidates carrying its label.
pub open spec fn labelled(isos: Seq<String>, label: Seq<char>) -> Seq<(Seq<char>, Option<Seq<char>>)> {
    Seq::new(isos.len(), |k: int| (isos[k]@, Some(label)))
}

/// The candidates of a store with release provenance: for each release the
/// selector matches, in order, the ISOs found for it, labelled with it.
pub open spec fn release_candidates(
    found: Seq<(ReleaseProvenance, Vec<String>)>,
    sel: IsoSelector,
) -> Seq<(Seq<char>, Option<Seq<char>>)>
    decreases found.len(),
{
    if found.len() == 0 {
        Seq::empty()
    } else {
        let rest = release_candidates(found.drop_last(), sel);
        if spec_release_matches(found.last().0, sel) {
            rest + labelled(found.last().1@, label_of(found.last().0))
        } else {
            rest
        }
    }
}

fn opt_str(s: &Option<String>) -> (r: Option<&str>)
    ensures
        match s {
            Some(x) => r matches Some(y) && y@ == x@,
            None => r is None,
        },
{
    match s {
        Some(x) => Some(x.as_str()),
        None => None,
    }
}

/// `list` is the listing by path (see [`is_path_listing`]) of candidates
/// whose views are `vs`: their distinct paths in strictly increasing path
/// order, each with the release label of its first occurrence.
pub open spec fn is_listing_of(vs: Seq<(Seq<char>, Option<Seq<char>>)>, list: Seq<IsoCandidate>) -> bool {
    exists|raw: Seq<IsoCandidate>|
        #[trigger] is_path_listing(raw, list) && raw.map_values(|c: IsoCandidate| candidate_view(c)) == vs
}

/// Every ISO the store offers for `sel`, listed by path with duplicates
/// merged (several releases can share one machine-os image, yielding the
/// same path; the first keeps its label). With release provenance (`found`:
/// each release with the ISOs found for it — only a release the selector
/// matches is searched), the candidates come through the releases; without
/// any, from the scan of `extracted/` (`scanned`: each ISO's path and file
/// name), filtered by arch.
pub fn find_candidates(
    found: &Vec<(ReleaseProvenance, Vec<String>)>,
    scanned: &Vec<(String, Option<String>)>,
    sel: &IsoSelector,
) -> (listed: Vec<IsoCandidate>)
    ensures
        is_listing_of(
            if found@.len() == 0 {
                scanned_candidates(scanned@, sel.arch)
            } else {
                release_candidates(found@, *sel)
            },
            listed@,
        ),
{
    let mut out: Vec<IsoCandidate> = Vec::new();
    if found.len() == 0 {
        let mut i: usize = 0;
        while i < scanned.len()
            invariant
                i <= scanned@.len(),
                out@.map_values(|c: IsoCandidate| candidate_view(c)) == scanned_candidates(
                    scanned@.take(i as int),
                    sel.arch,
                ),
            decreases scanned@.len() - i,
        {
            assert(scanned@.take(i + 1).drop_last() == scanned@.take(i as int));
            let ok = arch_matches_filename(opt_str(&scanned[i].1), opt_str(&sel.arch));
            if ok {
                let ghost before = out@;
                out.push(IsoCandidate { iso: scanned[i].0.clone(), release: None });
                assert(out@.map_values(|c: IsoCandidate| candidate_view(c)) == before.map_values(
                    |c: IsoCandidate| candidate_view(c),
                ).push((scanned@[i as int].0@, None)));
            }
            i += 1;
        }
        assert(scanned@.take(scanned@.len() as int) == scanned@);
    } else {
        let mut i: usize = 0;
        while i < found.len()
            invariant
                i <= found@.len(),
                out@.map_values(|c: IsoCandidate| candidate_view(c)) == release_candidates(
                    found@.take(i as int),
                    *sel,
                ),
            decreases found@.len() - i,
        {
            assert(found@.take(i + 1).drop_last() == found@.take(i as int));
            let rel = &found[i].0;
            if release_matches(rel, sel) {
                let label = release_label(rel);
                let isos = &found[i].1;
                let ghost base = out@.map_values(|c: IsoCandidate| candidate_view(c));
                let mut j: usize = 0;
                while j < isos.len()
                    invariant
                        j <= isos@.len(),
                        label@ == label_of(*rel),
                        out@.map_values(|c: IsoCandidate| candidate_view(c)) == base + labelled(
                            isos@.take(j as int),
                            label@,
                        ),
                    decreases isos@.len() - j,
                {
                    let ghost before = out@;
                    out.push(IsoCandidate { iso: isos[j].clone(), release: Some(label.clone()) });
                    assert(labelled(isos@.take(j + 1), label@) == labelled(isos@.take(j as int), label@).push(
                        (isos@[j as int]@, Some(label@)),
                    ));
                    assert(out@.map_values(|c: IsoCandidate| candidate_view(c)) == before.map_values(
                        |c: IsoCandidate| candidate_view(c),
                    ).push((isos@[j as int]@, Some(label@))));
                    j += 1;
                }
                assert(isos@.take(isos@.len() as int) == isos@);
            }
            i += 1;
        }
        assert(found@.take(found@.len() as int) == found@);
    }
    let listed = path_listing(&out);
    assert(is_path_listing(out@, listed@) && out@.map_values(|c: IsoCandidate| candidate_view(c)) == (
    if found@.len() == 0 {
        scanned_candidates(scanned@, sel.arch)
    } else {
        release_candidates(found@, *sel)
    }));
    listed
}

/// The manifest digests of a release's machine-OS components, in order:
/// where its ISO is looked for.
pub fn machine_os_digests(rel: &ReleaseProvenance) -> (r: Vec<String>)
    ensures
        r@.map_values(|s: String| s@) == machine_os_digest_list(rel.components@),
{
    let mut r: Vec<String> = Vec::new();
    let mut i: usize = 0;
    while i < rel.components.len()
        invariant
            i <= rel.components@.len(),
            r@.map_values(|s: String| s@) == machine_os_digest_list(rel.components@.take(i as int)),
        decreases rel.components@.len() - i,
    {
        assert(rel.components@.take(i + 1).drop_last() == rel.components@.take(i as int));
        let c = &rel.components[i];
        if is_machine_os(c.name.as_str()) {
            match &c.manifest_digest {
                Some(d) => {
                    let ghost before = r@;
                    r.push(d.clone());
                    assert(r@.map_values(|s: String| s@) == before.map_values(|s: String| s@).push(d@));
                },
                None => {},
            }
        }
        i += 1;
    }
    assert(rel.components@.take(rel.components@.len() as int) == rel.components@);
    r
}

/// The manifest digests of the machine-OS components (name containing
/// `machine-os`) that recorded one, in order.
pub open spec fn machine_os_digest_list(cs: Seq<ComponentProvenance>) -> Seq<Seq<char>>
    decreases cs.len(),
{
    if cs.len() == 0 {
        Seq::empty()
    } else {
        let rest = machine_os_digest_list(cs.drop_last());
        let c = cs.last();
        if contains_seq(c.name@, "machine-os"@) {
            match c.manifest_digest {
                Some(d) => rest.push(d@),
                None => rest,
            }
        } else {
            rest
        }
    }
}

} // verus!

verus! {

/// A selector's filters each rule releases out on their own, and only they
/// do: a release of another architecture (compared in the OCI spelling)
/// never matches, whatever release text is asked for; a release whose image
/// reference does not contain the asked text, and whose manifest digest hex
/// does not start with it, never matches, whatever architecture is asked
/// for; a release that passes both filters (each passed when absent)
/// matches; and a selector with neither filter matches every release.
pub proof fn lemma_release_filters(rel: ReleaseProvenance, sel: IsoSelector)
    ensures
        sel.arch matches Some(w) && spec_oci_arch(w@) != spec_oci_arch(rel.arch@) ==> !spec_release_matches(
            rel,
            sel,
        ),
        sel.release matches Some(w) && !contains_seq(rel.release_image@, w@) && !starts_with(
            hex_or_whole(rel.release_manifest_digest@),
            w@,
        ) ==> !spec_release_matches(rel, sel),
        (sel.arch matches Some(w) ==> spec_oci_arch(w@) == spec_oci_arch(rel.arch@)) && (sel.release matches Some(
            w,
        ) ==> contains_seq(rel.release_image@, w@) || starts_with(hex_or_whole(rel.release_manifest_digest@), w@))
            ==> spec_release_matches(rel, sel),
        sel.arch is None && sel.release is None ==> spec_release_matches(rel, sel),
{
}

} // verus!
