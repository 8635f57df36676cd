//! Packing OCI image layers into directories that stack as `LayerFS` lowers.
//!
//! Pulling, decompressing and unpacking tar entries happens outside this
//! library; the rules it applies are here: which tar entry paths are safe to
//! unpack and where, what counts as a whiteout, how a layer's diff_id is
//! checked against the image config, and how a packed layer is named.
use vstd::prelude::*;
use vstd::utf8::valid_utf8;
use crate::digest::{digest_hex, Digest};
use crate::text::utf8_string;
use crate::client::Reference;
use crate::provenance::{ImageProvenance, LayerProvenance};

verus! {

/// Counts from extracting a single layer tar.
#[derive(Clone, Copy, Debug)]
pub struct LayerStats {
    /// Files + symlinks unpacked (auto-created directories are not counted).
    pub entries: u64,
    /// OCI whiteout entries seen (`.wh.*`), preserved as-is for `LayerFS`.
    pub whiteouts: u64,
}

/// `.wh.`, the OCI whiteout prefix, as bytes.
pub open spec fn whiteout_prefix() -> Seq<u8> {
    seq![46u8, 119u8, 104u8, 46u8]
}

/// Whether a file name is an OCI whiteout marker: valid UTF-8 that starts
/// with `.wh.`.
pub open spec fn whiteout_name(name: Seq<u8>) -> bool {
    &&& valid_utf8(name)
    &&& name.len() >= 4
    &&& name.take(4) == whiteout_prefix()
}

/// The last component of a path: the bytes after its last `/`.
pub open spec fn file_name_of(p: Seq<u8>) -> Seq<u8>
    decreases p.len(),
{
    if p.len() == 0 {
        Seq::empty()
    } else if p.last() == 47u8 {
        Seq::empty()
    } else {
        file_name_of(p.drop_last()).push(p.last())
    }
}

/// 1 if `name` is a whiteout marker, else 0.
pub open spec fn whiteout_count(name: Seq<u8>) -> int {
    if whiteout_name(name) {
        1
    } else {
        0
    }
}

/// Whether `p[start..]` is a whiteout marker name.
fn whiteout_at(p: &[u8], start: usize) -> (r: bool)
    requires
        start <= p@.len(),
    ensures
        r == whiteout_name(p@.skip(start as int)),
{
    let ghost name = p@.skip(start as int);
    let n = p.len() - start;
    if n < 4 {
        return false;
    }
    let b0 = p[start];
    let b1 = p[start + 1];
    let b2 = p[start + 2];
    let b3 = p[start + 3];
    assert(name[0] == b0 && name[1] == b1 && name[2] == b2 && name[3] == b3);
    if !(b0 == 46u8 && b1 == 119u8 && b2 == 104u8 && b3 == 46u8) {
        assert(name.take(4) != whiteout_prefix()) by {
            if name.take(4) == whiteout_prefix() {
                assert(name.take(4)[0] == name[0] && name.take(4)[1] == name[1]);
                assert(name.take(4)[2] == name[2] && name.take(4)[3] == name[3]);
            }
        }
        return false;
    }
    assert(name.take(4) == whiteout_prefix());
    let mut bytes: Vec<u8> = Vec::new();
    let mut i = start;
    while i < p.len()
        invariant
            start <= i <= p@.len(),
            bytes@ == p@.subrange(start as int, i as int),
        decreases p@.len() - i,
    {
        bytes.push(p[i]);
        i += 1;
    }
    assert(bytes@ == name);
    utf8_string(bytes).is_some()
}

/// Whether a file name is an OCI whiteout marker (valid UTF-8 starting with
/// `.wh.`).
pub fn is_whiteout_name(name: &[u8]) -> (r: bool)
    ensures
        r == whiteout_name(name@),
{
    assert(name@.skip(0) == name@);
    whiteout_at(name, 0)
}

/// Where the last component of `p` starts.
fn file_name_start(p: &[u8]) -> (s: usize)
    ensures
        s <= p@.len(),
        p@.skip(s as int) == file_name_of(p@),
{
    let mut i = p.len();
    while i > 0 && p[i - 1] != 47u8
        invariant
            i <= p@.len(),
            forall|j: int| i <= j < p@.len() ==> p@[j] != 47u8,
        decreases i,
    {
        i -= 1;
    }
    proof {
        lemma_file_name_suffix(p@, i as int);
        if i > 0 {
            assert(p@.take(i as int).last() == 47u8);
        }
    }
    i
}

/// When no byte from `i` on is a `/`, the last component of `p` is that of
/// its first `i` bytes followed by the rest.
proof fn lemma_file_name_suffix(p: Seq<u8>, i: int)
    requires
        0 <= i <= p.len(),
        forall|j: int| i <= j < p.len() ==> p[j] != 47u8,
    ensures
        file_name_of(p) == file_name_of(p.take(i)) + p.skip(i),
    decreases p.len(),
{
    if i == p.len() {
        assert(p.take(i) == p);
        assert(p.skip(i) == Seq::<u8>::empty());
    } else {
        let q = p.drop_last();
        lemma_file_name_suffix(q, i);
        assert(q.take(i) == p.take(i));
        assert(p.skip(i) == q.skip(i).push(p.last()));
    }
}

/// Count one file or symlink of an extracted tree into `stats`, by its file
/// name: it is an entry, and a whiteout when its name is one.
pub fn count_file(stats: &mut LayerStats, name: &[u8])
    requires
        old(stats).entries < u64::MAX,
        old(stats).whiteouts < u64::MAX,
    ensures
        final(stats).entries == old(stats).entries + 1,
        final(stats).whiteouts == old(stats).whiteouts + whiteout_count(name@),
{
    stats.entries = stats.entries + 1;
    if is_whiteout_name(name) {
        stats.whiteouts = stats.whiteouts + 1;
    }
}

/// What kind of tar entry is being unpacked.
#[derive(Clone, Copy, Debug)]
pub enum TarKind {
    /// A directory.
    Directory,
    /// A hardlink to another entry.
    HardLink,
    /// Anything else: a regular file, a symlink, a device node.
    Other,
}

/// What to do with one tar entry of a layer.
#[derive(Clone, Debug)]
pub enum EntryPlan {
    /// The path is unsafe (absolute, `..`, empty): skip the entry.
    Skip,
    /// Create the directory at `rel`; apply `mode` (permission bits only)
    /// once the whole layer is unpacked.
    Directory { rel: Vec<u8>, mode: Option<u32> },
    /// Hardlink `rel` to `target`, once every regular file exists.
    HardLink { rel: Vec<u8>, target: Vec<u8> },
    /// A hardlink without a safe target: nothing is made.
    DanglingLink,
    /// Unpack the entry in place at `rel`.
    Unpack { rel: Vec<u8> },
}

/// Whether the absolute path `p` is the directory `dir` or lies beneath it,
/// comparing whole components (as `Path::starts_with` does): `/a/bc` is not
/// beneath `/a/b`, and everything absolute is beneath `/`.
pub open spec fn beneath(p: Seq<u8>, dir: Seq<u8>) -> bool {
    ||| p == dir
    ||| (p.len() > dir.len() && p.take(dir.len() as int) == dir && (p[dir.len() as int] == 47u8 || (
    dir.len() > 0 && dir.last() == 47u8)))
}

/// Whether a resolved path lies inside the resolved destination directory of
/// a layer. Before anything of an entry is made, the directory it would be
/// made in is resolved, following every symlink already on disk (an
/// earlier entry of the layer may have planted one); when that directory is
/// not `dest` or beneath it, the entry would be written outside the layer and
/// unpacking stops with an error. A symlink the layer planted that stays
/// inside the layer is followed like any directory.
pub fn resolved_inside(dest: &[u8], resolved: &[u8]) -> (r: bool)
    ensures
        r == beneath(resolved@, dest@),
{
    let n = dest.len();
    if resolved.len() < n {
        assert(resolved@ != dest@);
        return false;
    }
    let mut i: usize = 0;
    while i < n
        invariant
            n == dest@.len() <= resolved@.len(),
            i <= n,
            forall|j: int| 0 <= j < i ==> resolved@[j] == dest@[j],
        decreases n - i,
    {
        if resolved[i] != dest[i] {
            assert(resolved@.take(n as int)[i as int] != dest@[i as int]);
            assert(resolved@ != dest@) by {
                if resolved@ == dest@ {
                    assert(resolved@[i as int] == dest@[i as int]);
                }
            }
            return false;
        }
        i += 1;
    }
    assert(resolved@.take(n as int) =~= dest@);
    if resolved.len() == n {
        assert(resolved@ =~= dest@);
        true
    } else {
        assert(resolved@ != dest@);
        resolved[n] == 47u8 || (n > 0 && dest[n - 1] == 47u8)
    }
}

/// The safe target of a hardlink entry, if it names one.
pub open spec fn link_target(link: Option<&[u8]>) -> Option<Seq<u8>> {
    match link {
        Some(l) => spec_safe_rel(l@),
        None => None,
    }
}

/// Whether `p` is the plan for an entry of `kind` at the safe path `rel`.
pub open spec fn plan_for(p: EntryPlan, kind: TarKind, rel: Seq<u8>, mode: Option<u32>, link: Option<&[u8]>) -> bool {
    match kind {
        TarKind::Directory => match p {
            EntryPlan::Directory { rel: r, mode: m } => r@ == rel && match mode {
                Some(bits) => m == Some(bits & 0o7777u32),
                None => m is None,
            },
            _ => false,
        },
        TarKind::HardLink => match link_target(link) {
            Some(t) => match p {
                EntryPlan::HardLink { rel: r, target: tg } => r@ == rel && tg@ == t,
                _ => false,
            },
            None => p is DanglingLink,
        },
        TarKind::Other => match p {
            EntryPlan::Unpack { rel: r } => r@ == rel,
            _ => false,
        },
    }
}

/// Plan one tar entry of a layer and count it into `stats`. Unsafe paths
/// are skipped uncounted. Any other entry whose file name is a whiteout
/// counts as one; a hardlink with a safe target counts as an entry here,
/// while an unpacked entry counts once [`record_unpacked`] reports it.
pub fn plan_entry(stats: &mut LayerStats, kind: TarKind, path: &[u8], mode: Option<u32>, link: Option<&[u8]>) -> (p: EntryPlan)
    requires
        old(stats).entries < u64::MAX,
        old(stats).whiteouts < u64::MAX,
    ensures
        match spec_safe_rel(path@) {
            None => p is Skip && final(stats).entries == old(stats).entries && final(stats).whiteouts
                == old(stats).whiteouts,
            Some(rel) => {
                &&& plan_for(p, kind, rel, mode, link)
                &&& final(stats).whiteouts == old(stats).whiteouts + whiteout_count(file_name_of(rel))
                &&& final(stats).entries == old(stats).entries + (if kind is HardLink && link_target(link) is Some {
                    1int
                } else {
                    0int
                })
            },
        },
{
    let rel = match safe_rel(path) {
        None => {
            return EntryPlan::Skip;
        },
        Some(r) => r,
    };
    let start = file_name_start(rel.as_slice());
    if whiteout_at(rel.as_slice(), start) {
        stats.whiteouts = stats.whiteouts + 1;
    }
    match kind {
        TarKind::Directory => {
            let m = match mode {
                Some(bits) => Some(bits & 0o7777u32),
                None => None,
            };
            EntryPlan::Directory { rel, mode: m }
        },
        TarKind::HardLink => {
            let target = match link {
                Some(l) => safe_rel(l),
                None => None,
            };
            match target {
                Some(t) => {
                    stats.entries = stats.entries + 1;
                    EntryPlan::HardLink { rel, target: t }
                },
                None => EntryPlan::DanglingLink,
            }
        },
        TarKind::Other => EntryPlan::Unpack { rel },
    }
}

/// Count an entry that was to be unpacked in place (the tar crate reports
/// `false` for one it refused to unpack, which is not counted).
pub fn record_unpacked(stats: &mut LayerStats, unpacked: bool)
    requires
        old(stats).entries < u64::MAX,
    ensures
        final(stats).entries == old(stats).entries + (if unpacked {
            1int
        } else {
            0int
        }),
        final(stats).whiteouts == old(stats).whiteouts,
{
    if unpacked {
        stats.entries = stats.entries + 1;
    }
}

/// Whether the first bytes read from a blob are the gzip magic `1f 8b`.
pub fn has_gzip_magic(head: &[u8]) -> (r: bool)
    ensures
        r == (head@ == seq![0x1fu8, 0x8bu8]),
{
    if head.len() != 2 {
        return false;
    }
    let a = head[0];
    let b = head[1];
    let r = a == 0x1fu8 && b == 0x8bu8;
    assert(r ==> head@ =~= seq![0x1fu8, 0x8bu8]);
    assert(head@ == seq![0x1fu8, 0x8bu8] ==> head@[0] == 0x1fu8 && head@[1] == 0x8bu8);
    r
}

impl Default for LayerStats {
    fn default() -> (s: LayerStats)
        ensures
            s.entries == 0 && s.whiteouts == 0,
    {
        LayerStats { entries: 0, whiteouts: 0 }
    }
}

/// A pulled image, packed to disk with provenance.
#[derive(Clone, Debug)]
pub struct PackedImage {
    /// Digest the image manifest was fetched by (the per-image anchor).
    pub manifest_digest: Digest,
    /// Image index digest, if the reference resolved through a multi-arch index.
    pub index_digest: Option<Digest>,
    /// Image config blob digest.
    pub config_digest: Digest,
    /// Layer directories in `LayerFS` lower order: index 0 is the topmost
    /// (highest-priority) layer.
    pub layer_dirs: Vec<String>,
    /// Full hash chain for this image.
    pub provenance: crate::provenance::ImageProvenance,
}

/// How many `/` a path holds: for a safe relative path, one less than its
/// number of components.
pub open spec fn slash_count(p: Seq<u8>) -> int
    decreases p.len(),
{
    if p.len() == 0 {
        0
    } else {
        slash_count(p.drop_last()) + if p.last() == 47u8 {
            1int
        } else {
            0int
        }
    }
}

/// Whether directory `i` of `dirs` gets its mode before directory `j`:
/// deeper first, and in unpack order among equally deep ones.
pub open spec fn mode_before(dirs: Seq<(Vec<u8>, u32)>, i: int, j: int) -> bool {
    ||| slash_count(dirs[i].0@) > slash_count(dirs[j].0@)
    ||| (slash_count(dirs[i].0@) == slash_count(dirs[j].0@) && i < j)
}

/// The number of `/` in `p`.
fn count_slashes(p: &Vec<u8>) -> (n: usize)
    ensures
        n == slash_count(p@),
{
    let mut n: usize = 0;
    let mut i: usize = 0;
    while i < p.len()
        invariant
            i <= p@.len(),
            n == slash_count(p@.take(i as int)),
            n <= i,
        decreases p@.len() - i,
    {
        assert(p@.take(i + 1).drop_last() == p@.take(i as int));
        if p[i] == 47u8 {
            n = n + 1;
        }
        i += 1;
    }
    assert(p@.take(p@.len() as int) == p@);
    n
}

/// The order in which the modes of the unpacked directories are applied:
/// deepest first, so a read-only directory is only locked once everything
/// beneath it is in place; equally deep ones keep the order they were
/// unpacked in. Every directory's index is listed once.
pub fn mode_order(dirs: &Vec<(Vec<u8>, u32)>) -> (order: Vec<usize>)
    ensures
        forall|k: int| 0 <= k < order@.len() ==> order@[k] < dirs@.len(),
        forall|a: int, b: int|
            0 <= a < b < order@.len() ==> mode_before(dirs@, order@[a] as int, order@[b] as int),
        forall|i: usize| i < dirs@.len() ==> #[trigger] order@.contains(i),
{
    let n = dirs.len();
    let mut depth: Vec<usize> = Vec::new();
    let mut deepest: usize = 0;
    let mut i: usize = 0;
    while i < n
        invariant
            i <= n == dirs@.len(),
            depth@.len() == i,
            forall|j: int| 0 <= j < i ==> depth@[j] == slash_count(dirs@[j].0@),
            forall|j: int| 0 <= j < i ==> depth@[j] <= deepest,
        decreases n - i,
    {
        let d = count_slashes(&dirs[i].0);
        depth.push(d);
        if d > deepest {
            deepest = d;
        }
        i += 1;
    }
    let mut order: Vec<usize> = Vec::new();
    let mut level: usize = deepest;
    loop
        invariant_except_break
            forall|k: int| 0 <= k < order@.len() ==> depth@[order@[k] as int] > level,
            forall|x: usize| x < n && depth@[x as int] > level ==> #[trigger] order@.contains(x),
        invariant
            n == dirs@.len() == depth@.len(),
            level <= deepest,
            forall|j: int| 0 <= j < n ==> depth@[j] == slash_count(dirs@[j].0@),
            forall|j: int| 0 <= j < n ==> depth@[j] <= deepest,
            forall|k: int| 0 <= k < order@.len() ==> order@[k] < n,
            forall|a: int, b: int|
                0 <= a < b < order@.len() ==> mode_before(dirs@, order@[a] as int, order@[b] as int),
        ensures
            forall|k: int| 0 <= k < order@.len() ==> order@[k] < n,
            forall|a: int, b: int|
                0 <= a < b < order@.len() ==> mode_before(dirs@, order@[a] as int, order@[b] as int),
            forall|x: usize| x < n ==> #[trigger] order@.contains(x),
        decreases level,
    {
        let mut j: usize = 0;
        while j < n
            invariant
                n == dirs@.len() == depth@.len(),
                j <= n,
                forall|x: int| 0 <= x < n ==> depth@[x] == slash_count(dirs@[x].0@),
                forall|k: int| 0 <= k < order@.len() ==> order@[k] < n,
                forall|k: int|
                    0 <= k < order@.len() ==> depth@[order@[k] as int] > level || (depth@[order@[k] as int]
                        == level && order@[k] < j),
                forall|a: int, b: int|
                    0 <= a < b < order@.len() ==> mode_before(dirs@, order@[a] as int, order@[b] as int),
                forall|x: usize| x < n && depth@[x as int] > level ==> #[trigger] order@.contains(x),
                forall|x: usize| x < j && depth@[x as int] == level ==> #[trigger] order@.contains(x),
            decreases n - j,
        {
            if depth[j] == level {
                let ghost before = order@;
                order.push(j);
                proof {
                    assert forall|x: usize| x < n && (depth@[x as int] > level || (x < j + 1
                        && depth@[x as int] == level)) implies #[trigger] order@.contains(x) by {
                        if x == j {
                            assert(order@[before.len() as int] == j);
                        } else {
                            assert(before.contains(x));
                            let k = choose|k: int| 0 <= k < before.len() && before[k] == x;
                            assert(order@[k] == x);
                        }
                    }
                }
            }
            j += 1;
        }
        if level == 0 {
            break;
        }
        level = level - 1;
    }
    order
}

/// What a layer's record says: its compressed digest, diff_id, whether the
/// diff_id was verified, verity root, directory, and entry and whiteout
/// counts.
pub open spec fn layer_record_view(p: LayerProvenance) -> (
    Seq<char>,
    Option<Seq<char>>,
    bool,
    Seq<char>,
    Seq<char>,
    u64,
    u64,
) {
    (
        p.compressed_digest@,
        match p.diff_id {
            Some(d) => Some(d@),
            None => None,
        },
        p.diff_id_verified,
        p.verity_root@,
        p.dir@,
        p.entries,
        p.whiteouts,
    )
}

/// The record of a layer with compressed digest `layer`, given what packing
/// it found: a function of these alone.
pub open spec fn layer_record_for(
    layer: Seq<char>,
    diff_id: Seq<char>,
    verified: bool,
    verity_root: Seq<char>,
    entries: u64,
    whiteouts: u64,
) -> (Seq<char>, Option<Seq<char>>, bool, Seq<char>, Seq<char>, u64, u64) {
    (layer, Some(diff_id), verified, verity_root, "extracted/"@ + digest_hex(layer), entries, whiteouts)
}

/// What an image's record says, its layers by [`layer_record_view`].
pub open spec fn image_record_view(p: ImageProvenance) -> (
    Seq<char>,
    Seq<char>,
    Seq<char>,
    Option<Seq<char>>,
    Seq<char>,
    Seq<char>,
    Seq<(Seq<char>, Option<Seq<char>>, bool, Seq<char>, Seq<char>, u64, u64)>,
) {
    (
        p.image@,
        p.arch@,
        p.os@,
        match p.index_digest {
            Some(d) => Some(d@),
            None => None,
        },
        p.manifest_digest@,
        p.config_digest@,
        Seq::new(p.layers@.len(), |i: int| layer_record_view(p.layers@[i])),
    )
}

/// The record of an image pulled as `registry/repository:reference` for
/// `arch`/`os`, given the digests it resolved to and its layers' records: a
/// function of these alone.
pub open spec fn image_record_for(
    registry: Seq<char>,
    repository: Seq<char>,
    reference: Seq<char>,
    arch: Seq<char>,
    os: Seq<char>,
    index_digest: Option<Seq<char>>,
    manifest_digest: Seq<char>,
    config_digest: Seq<char>,
    layers: Seq<(Seq<char>, Option<Seq<char>>, bool, Seq<char>, Seq<char>, u64, u64)>,
) -> (
    Seq<char>,
    Seq<char>,
    Seq<char>,
    Option<Seq<char>>,
    Seq<char>,
    Seq<char>,
    Seq<(Seq<char>, Option<Seq<char>>, bool, Seq<char>, Seq<char>, u64, u64)>,
) {
    (
        registry + "/"@ + repository + ":"@ + reference,
        arch,
        os,
        index_digest,
        manifest_digest,
        config_digest,
        layers,
    )
}

/// Packing an image again gives the same record when what packing found is
/// the same: two image records made by [`image_provenance`] from layer
/// records made by [`layer_provenance`] say the same thing whenever the
/// reference, platform, resolved digests and every layer's digest, diff_id,
/// verification, verity root and counts agree.
pub proof fn lemma_same_findings_same_record(
    p1: ImageProvenance,
    p2: ImageProvenance,
    image: (Seq<char>, Seq<char>, Seq<char>, Seq<char>, Seq<char>),
    digests: (Option<Seq<char>>, Seq<char>, Seq<char>),
    found: Seq<(Seq<char>, Seq<char>, bool, Seq<char>, u64, u64)>,
)
    requires
        p1.layers@.len() == found.len(),
        p2.layers@.len() == found.len(),
        forall|i: int|
            0 <= i < found.len() ==> {
                let f = #[trigger] found[i];
                &&& layer_record_view(p1.layers@[i]) == layer_record_for(f.0, f.1, f.2, f.3, f.4, f.5)
                &&& layer_record_view(p2.layers@[i]) == layer_record_for(f.0, f.1, f.2, f.3, f.4, f.5)
            },
        image_record_view(p1) == image_record_for(
            image.0,
            image.1,
            image.2,
            image.3,
            image.4,
            digests.0,
            digests.1,
            digests.2,
            Seq::new(p1.layers@.len(), |i: int| layer_record_view(p1.layers@[i])),
        ),
        image_record_view(p2) == image_record_for(
            image.0,
            image.1,
            image.2,
            image.3,
            image.4,
            digests.0,
            digests.1,
            digests.2,
            Seq::new(p2.layers@.len(), |i: int| layer_record_view(p2.layers@[i])),
        ),
    ensures
        image_record_view(p1) == image_record_view(p2),
{
    let l1 = Seq::new(p1.layers@.len(), |i: int| layer_record_view(p1.layers@[i]));
    let l2 = Seq::new(p2.layers@.len(), |i: int| layer_record_view(p2.layers@[i]));
    assert(l1 =~= l2) by {
        assert forall|i: int| 0 <= i < l1.len() implies l1[i] == l2[i] by {
            let f = found[i];
            assert(layer_record_view(p1.layers@[i]) == layer_record_for(f.0, f.1, f.2, f.3, f.4, f.5));
        }
    }
}

/// Whether a layer's uncompressed digest matches the image config: the config
/// declares a diff_id at the layer's position and it equals the computed one.
pub fn diff_id_verified(diff_ids: &Vec<Digest>, index: usize, diff_id: &Digest) -> (r: bool)
    ensures
        r == (index < diff_ids@.len() && diff_ids@[index as int].0@ == diff_id.0@),
{
    if index < diff_ids.len() {
        diff_ids[index].0 == diff_id.0
    } else {
        false
    }
}

/// The names a packed layer uses under the store root, keyed by the hex of
/// its compressed digest: the extracted directory `extracted/<hex>`, its
/// completion marker `extracted/<hex>.done`, and its verity manifest
/// `provenance/layers/<hex>.verity.json`.
pub fn layer_names(layer: &Digest) -> (r: (String, String, String))
    ensures
        r.0@ == "extracted/"@ + digest_hex(layer.0@),
        r.1@ == "extracted/"@ + digest_hex(layer.0@) + ".done"@,
        r.2@ == "provenance/layers/"@ + digest_hex(layer.0@) + ".verity.json"@,
{
    let hex = layer.hex();
    let mut dir = String::from_str("extracted/");
    dir.append(hex);
    let mut marker = String::from_str("extracted/");
    marker.append(hex);
    marker.append(".done");
    let mut verity = String::from_str("provenance/layers/");
    verity.append(hex);
    verity.append(".verity.json");
    (dir, marker, verity)
}

/// What packing a layer has left to do, given what an earlier run left in
/// the store. Either way the layer's verity is then rebuilt over its
/// extracted tree, so every run re-verifies what it reuses.
#[derive(Clone, Copy, Debug)]
pub enum LayerWork {
    /// Already extracted (marker present): count the extracted tree.
    Reuse,
    /// Not extracted: clear any stale directory, extract, and mark it done.
    Extract,
}

/// An extracted layer (its completion marker present) is reused rather
/// than re-extracted; anything else is extracted afresh. Nothing recorded
/// about its verity is reused: the root is recomputed on every run.
pub fn layer_work(marker_present: bool) -> (w: LayerWork)
    ensures
        w is Reuse <==> marker_present,
        w is Extract <==> !marker_present,
{
    if marker_present {
        LayerWork::Reuse
    } else {
        LayerWork::Extract
    }
}

/// The hash chain of one packed layer: its compressed digest, the diff_id
/// computed over its uncompressed tar and whether the config declared it,
/// the verity root of its extracted tree, where that tree is, and what it
/// holds.
pub fn layer_provenance(
    layer: &Digest,
    diff_id: &Digest,
    diff_id_verified: bool,
    verity_root: String,
    stats: LayerStats,
) -> (p: LayerProvenance)
    ensures
        p.compressed_digest@ == layer.0@,
        p.diff_id matches Some(d) && d@ == diff_id.0@,
        p.diff_id_verified == diff_id_verified,
        p.verity_root == verity_root,
        p.dir@ == "extracted/"@ + digest_hex(layer.0@),
        p.entries == stats.entries,
        p.whiteouts == stats.whiteouts,
        layer_record_view(p) == layer_record_for(
            layer.0@,
            diff_id.0@,
            diff_id_verified,
            verity_root@,
            stats.entries,
            stats.whiteouts,
        ),
{
    let (dir, _, _) = layer_names(layer);
    LayerProvenance {
        compressed_digest: layer.0.clone(),
        diff_id: Some(diff_id.0.clone()),
        diff_id_verified,
        verity_root,
        dir,
        entries: stats.entries,
        whiteouts: stats.whiteouts,
    }
}

/// The hash chain of a packed image: the reference it was pulled by, the
/// platform, the index it resolved through (if any), its manifest and config
/// digests, and its layers' chains in manifest order.
pub fn image_provenance(
    reference: &Reference,
    arch: &str,
    os: &str,
    index_digest: &Option<Digest>,
    manifest_digest: &Digest,
    config_digest: &Digest,
    layers: Vec<LayerProvenance>,
) -> (p: ImageProvenance)
    ensures
        p.image@ == reference.registry@ + "/"@ + reference.repository@ + ":"@ + reference.reference@,
        p.arch@ == arch@,
        p.os@ == os@,
        match index_digest {
            Some(d) => p.index_digest matches Some(s) && s@ == d.0@,
            None => p.index_digest is None,
        },
        p.manifest_digest@ == manifest_digest.0@,
        p.config_digest@ == config_digest.0@,
        p.layers@ == layers@,
        image_record_view(p) == image_record_for(
            reference.registry@,
            reference.repository@,
            reference.reference@,
            arch@,
            os@,
            match index_digest {
                Some(d) => Some(d.0@),
                None => None,
            },
            manifest_digest.0@,
            config_digest.0@,
            Seq::new(layers@.len(), |i: int| layer_record_view(layers@[i])),
        ),
{
    let index = match index_digest {
        Some(d) => Some(d.0.clone()),
        None => None,
    };
    ImageProvenance {
        image: reference.image_label(),
        arch: String::from_str(arch),
        os: String::from_str(os),
        index_digest: index,
        manifest_digest: manifest_digest.0.clone(),
        config_digest: config_digest.0.clone(),
        layers,
    }
}

/// The packed image: its digests, its provenance, and its layer directories
/// turned from manifest order (base first) into `LayerFS` lower order.
pub fn packed_image(
    manifest_digest: Digest,
    index_digest: Option<Digest>,
    config_digest: Digest,
    dirs_base_first: Vec<String>,
    provenance: ImageProvenance,
) -> (p: PackedImage)
    ensures
        p.manifest_digest == manifest_digest,
        p.index_digest == index_digest,
        p.config_digest == config_digest,
        p.layer_dirs@ == dirs_base_first@.reverse(),
        p.provenance == provenance,
{
    let layer_dirs = lower_order(dirs_base_first);
    PackedImage { manifest_digest, index_digest, config_digest, layer_dirs, provenance }
}

/// Manifest order is base-first; `LayerFS` lowers are top-down (index 0 =
/// highest priority): the layer directories reversed.
pub fn lower_order(dirs: Vec<String>) -> (r: Vec<String>)
    ensures
        r@ == dirs@.reverse(),
{
    let mut r: Vec<String> = Vec::new();
    let n = dirs.len();
    let mut i = n;
    while i > 0
        invariant
            i <= n == dirs@.len(),
            r@ == dirs@.subrange(i as int, n as int).reverse(),
        decreases i,
    {
        assert(dirs@.subrange(i - 1, n as int).reverse() == dirs@.subrange(i as int, n as int).reverse().push(
            dirs@[i - 1],
        ));
        r.push(dirs[i - 1].clone());
        i -= 1;
    }
    assert(dirs@.subrange(0, n as int) == dirs@);
    r
}

} // verus!

verus! {

/// The pieces of a byte path between `/` separators, empty ones included.
pub open spec fn path_pieces(p: Seq<u8>) -> Seq<Seq<u8>>
    decreases p.len(),
{
    if p.len() == 0 {
        seq![Seq::empty()]
    } else {
        let ps = path_pieces(p.drop_last());
        if p.last() == 47u8 {
            ps.push(Seq::empty())
        } else {
            ps.update(ps.len() - 1, ps.last().push(p.last()))
        }
    }
}

/// The normal components among `pieces`, in order: empty pieces and `.` are
/// dropped; `None` if any piece is `..`.
pub open spec fn normal_components(pieces: Seq<Seq<u8>>) -> Option<Seq<Seq<u8>>>
    decreases pieces.len(),
{
    if pieces.len() == 0 {
        Some(Seq::empty())
    } else {
        match normal_components(pieces.drop_last()) {
            None => None,
            Some(k) => {
                let c = pieces.last();
                if c == seq![46u8, 46u8] {
                    None
                } else if c.len() == 0 || c == seq![46u8] {
                    Some(k)
                } else {
                    Some(k.push(c))
                }
            },
        }
    }
}

/// Components joined by `/`.
pub open spec fn join_components(parts: Seq<Seq<u8>>) -> Seq<u8>
    decreases parts.len(),
{
    if parts.len() == 0 {
        Seq::empty()
    } else if parts.len() == 1 {
        parts[0]
    } else {
        join_components(parts.drop_last()) + seq![47u8] + parts.last()
    }
}

/// A tar entry path made safe to unpack under the destination: relative,
/// with `.` and empty components dropped; `None` when the path is absolute,
/// names a `..` component, or is left with no component.
pub open spec fn spec_safe_rel(p: Seq<u8>) -> Option<Seq<u8>> {
    if p.len() > 0 && p[0] == 47u8 {
        None
    } else {
        match normal_components(path_pieces(p)) {
            None => None,
            Some(k) => if k.len() == 0 {
                None
            } else {
                Some(join_components(k))
            },
        }
    }
}

/// Folds the component `p[start..end]` into the joined output.
fn add_component(
    p: &[u8],
    start: usize,
    end: usize,
    out: &mut Vec<u8>,
    any: bool,
    Ghost(kept): Ghost<Seq<Seq<u8>>>,
) -> (r: (bool, bool))
    requires
        start <= end <= p@.len(),
        old(out)@ == join_components(kept),
        any == (kept.len() > 0),
    ensures
        !r.0 <==> p@.subrange(start as int, end as int) == seq![46u8, 46u8],
        r.0 ==> {
            let c = p@.subrange(start as int, end as int);
            let k2 = if c.len() == 0 || c == seq![46u8] {
                kept
            } else {
                kept.push(c)
            };
            final(out)@ == join_components(k2) && r.1 == (k2.len() > 0)
        },
{
    let ghost c = p@.subrange(start as int, end as int);
    let n = end - start;
    let b0: u8 = if n > 0 { p[start] } else { 0u8 };
    let b1: u8 = if n > 1 { p[start + 1] } else { 0u8 };
    assert(n > 0 ==> b0 == c[0]);
    assert(n > 1 ==> b1 == c[1]);
    if n == 2 && b0 == 46u8 && b1 == 46u8 {
        assert(c == seq![46u8, 46u8]);
        return (false, any);
    }
    if n == 0 || (n == 1 && b0 == 46u8) {
        if n == 1 {
            assert(c == seq![46u8]);
        }
        assert(c != seq![46u8, 46u8]) by {
            if c == seq![46u8, 46u8] {
                assert(c.len() == 2);
            }
        }
        return (true, any);
    }
    assert(c != seq![46u8, 46u8]) by {
        if c == seq![46u8, 46u8] {
            assert(c[0] == 46u8 && c[1] == 46u8 && c.len() == 2);
        }
    }
    assert(c != seq![46u8]) by {
        if c == seq![46u8] {
            assert(c[0] == 46u8 && c.len() == 1);
        }
    }
    let ghost before = out@;
    if any {
        out.push(47u8);
    }
    let mut i = start;
    while i < end
        invariant
            start <= i <= end <= p@.len(),
            out@ == (if kept.len() > 0 {
                before + seq![47u8]
            } else {
                before
            }) + p@.subrange(start as int, i as int),
        decreases end - i,
    {
        assert(p@.subrange(start as int, i + 1) == p@.subrange(start as int, i as int).push(p@[i as int]));
        out.push(p[i]);
        i += 1;
    }
    proof {
        let k2 = kept.push(c);
        assert(k2.drop_last() == kept);
        if kept.len() == 0 {
            assert(before == Seq::<u8>::empty());
            assert(out@ == c);
        }
    }
    (true, true)
}

/// Sanitize a tar entry path to a relative path under the destination;
/// rejects absolute paths and any `..` component (traversal).
pub fn safe_rel(path: &[u8]) -> (r: Option<Vec<u8>>)
    ensures
        match r {
            Some(v) => spec_safe_rel(path@) == Some(v@),
            None => spec_safe_rel(path@) is None,
        },
{
    let p = path;
    let len = p.len();
    if len > 0 && p[0] == 47u8 {
        return None;
    }
    let mut out: Vec<u8> = Vec::new();
    let mut any = false;
    let ghost mut done: Seq<Seq<u8>> = Seq::empty();
    let ghost mut kept: Seq<Seq<u8>> = Seq::empty();
    let mut start: usize = 0;
    let mut i: usize = 0;
    assert(p@.take(0) == Seq::<u8>::empty());
    while i < len
        invariant
            start <= i <= len == p@.len(),
            p@ == path@,
            len > 0 ==> p@[0] != 47u8,
            path_pieces(p@.take(i as int)) == done.push(p@.subrange(start as int, i as int)),
            normal_components(done) == Some(kept),
            out@ == join_components(kept),
            any == (kept.len() > 0),
        decreases len - i,
    {
        let ghost prev = p@.take(i as int);
        assert(p@.take(i + 1).drop_last() == prev);
        assert(p@.take(i + 1).last() == p@[i as int]);
        if p[i] == 47u8 {
            let ghost cur = p@.subrange(start as int, i as int);
            let (ok, any2) = add_component(p, start, i, &mut out, any, Ghost(kept));
            if !ok {
                proof {
                    assert(done.push(cur).drop_last() == done);
                    assert(normal_components(done.push(cur)) is None);
                    lemma_normal_none_prefix(p@, i + 1, done.push(cur));
                }
                return None;
            }
            proof {
                assert(done.push(cur).drop_last() == done);
                kept = if cur.len() == 0 || cur == seq![46u8] {
                    kept
                } else {
                    kept.push(cur)
                };
                done = done.push(cur);
                assert(p@.subrange(i + 1, i + 1) == Seq::<u8>::empty());
            }
            any = any2;
            start = i + 1;
        } else {
            proof {
                let ps = done.push(p@.subrange(start as int, i as int));
                assert(p@.subrange(start as int, i + 1) == p@.subrange(start as int, i as int).push(p@[i as int]));
                assert(ps.update(ps.len() - 1, ps.last().push(p@[i as int])) == done.push(
                    p@.subrange(start as int, i + 1),
                ));
            }
        }
        i += 1;
    }
    assert(p@.take(len as int) == p@);
    let ghost cur = p@.subrange(start as int, len as int);
    let (ok, any2) = add_component(p, start, len, &mut out, any, Ghost(kept));
    assert(done.push(cur).drop_last() == done);
    if !ok {
        return None;
    }
    if !any2 {
        return None;
    }
    Some(out)
}

/// Pieces of a longer prefix keep every piece of a shorter one but its last.
proof fn lemma_pieces_grow(p: Seq<u8>, i: int, j: int)
    requires
        0 <= i <= j <= p.len(),
    ensures
        path_pieces(p.take(j)).len() >= path_pieces(p.take(i)).len(),
        forall|k: int|
            0 <= k < path_pieces(p.take(i)).len() - 1 ==> path_pieces(p.take(j))[k] == path_pieces(
                p.take(i),
            )[k],
    decreases j - i,
{
    if i < j {
        lemma_pieces_grow(p, i, j - 1);
        assert(p.take(j).drop_last() == p.take(j - 1));
    }
}

/// A `..` among the pieces of a list stays in every list extending it.
proof fn lemma_normal_none_extends(s: Seq<Seq<u8>>, t: Seq<Seq<u8>>)
    requires
        normal_components(s) is None,
        s.len() <= t.len(),
        t.take(s.len() as int) == s,
    ensures
        normal_components(t) is None,
    decreases t.len(),
{
    if t.len() > s.len() {
        assert(t.drop_last().take(s.len() as int) == s);
        lemma_normal_none_extends(s, t.drop_last());
    } else {
        assert(t == s);
    }
}

/// When the pieces before a `/` at `i - 1` already hold a `..`, so do the
/// pieces of the whole path.
proof fn lemma_normal_none_prefix(p: Seq<u8>, i: int, done: Seq<Seq<u8>>)
    requires
        0 < i <= p.len(),
        path_pieces(p.take(i)) == done.push(Seq::empty()),
        normal_components(done) is None,
    ensures
        normal_components(path_pieces(p)) is None,
{
    lemma_pieces_grow(p, i, p.len() as int);
    assert(p.take(p.len() as int) == p);
    let q = path_pieces(p);
    assert(q.take(done.len() as int) =~= done) by {
        assert forall|k: int| 0 <= k < done.len() implies q[k] == done[k] by {
            assert(path_pieces(p.take(i))[k] == done[k]);
        }
    }
    lemma_normal_none_extends(done, q);
}

} // verus!

verus! {

/// A component that stays where it is put: not empty, not `.` or `..`, and
/// holding no `/`.
pub open spec fn normal_name(c: Seq<u8>) -> bool {
    &&& c.len() > 0
    &&& c != seq![46u8]
    &&& c != seq![46u8, 46u8]
    &&& !c.contains(47u8)
}

/// No piece of a path holds a `/`.
proof fn lemma_pieces_have_no_slash(p: Seq<u8>)
    ensures
        path_pieces(p).len() > 0,
        forall|i: int| 0 <= i < path_pieces(p).len() ==> !(#[trigger] path_pieces(p)[i]).contains(47u8),
    decreases p.len(),
{
    if p.len() > 0 {
        lemma_pieces_have_no_slash(p.drop_last());
        let ps = path_pieces(p.drop_last());
        if p.last() != 47u8 {
            let q = path_pieces(p);
            assert forall|i: int| 0 <= i < q.len() implies !(#[trigger] q[i]).contains(47u8) by {
                if i == q.len() - 1 {
                    let l = ps.last().push(p.last());
                    assert(q[i] == l);
                    if l.contains(47u8) {
                        let j = choose|j: int| 0 <= j < l.len() && l[j] == 47u8;
                        if j < l.len() - 1 {
                            assert(ps.last()[j] == 47u8);
                            assert(ps[ps.len() - 1].contains(47u8));
                        }
                    }
                } else {
                    assert(q[i] == ps[i]);
                }
            }
        } else {
            assert(Seq::<u8>::empty().len() == 0);
        }
    }
}

/// The normal components kept from pieces without `/` are normal names.
proof fn lemma_components_normal(pieces: Seq<Seq<u8>>)
    requires
        forall|i: int| 0 <= i < pieces.len() ==> !(#[trigger] pieces[i]).contains(47u8),
    ensures
        normal_components(pieces) matches Some(k) ==> forall|i: int|
            0 <= i < k.len() ==> normal_name(#[trigger] k[i]),
    decreases pieces.len(),
{
    if pieces.len() > 0 {
        let init = pieces.drop_last();
        assert forall|i: int| 0 <= i < init.len() implies !(#[trigger] init[i]).contains(47u8) by {
            assert(init[i] == pieces[i]);
        }
        lemma_components_normal(init);
        assert(pieces.last() == pieces[pieces.len() - 1]);
    }
}

/// Normal names are kept as they are.
proof fn lemma_normal_components_keep(k: Seq<Seq<u8>>)
    requires
        forall|i: int| 0 <= i < k.len() ==> normal_name(#[trigger] k[i]),
    ensures
        normal_components(k) == Some(k),
    decreases k.len(),
{
    if k.len() > 0 {
        let init = k.drop_last();
        assert forall|i: int| 0 <= i < init.len() implies normal_name(#[trigger] init[i]) by {
            assert(init[i] == k[i]);
        }
        lemma_normal_components_keep(init);
        assert(normal_name(k[k.len() - 1]));
        assert(init.push(k.last()) == k);
    }
}

/// A path without `/` is one piece.
proof fn lemma_pieces_of_name(a: Seq<u8>)
    requires
        !a.contains(47u8),
    ensures
        path_pieces(a) == seq![a],
    decreases a.len(),
{
    if a.len() > 0 {
        let b = a.drop_last();
        assert(!b.contains(47u8)) by {
            if b.contains(47u8) {
                let j = choose|j: int| 0 <= j < b.len() && b[j] == 47u8;
                assert(a[j] == 47u8);
            }
        }
        lemma_pieces_of_name(b);
        assert(a[a.len() - 1] != 47u8);
        assert(b.push(a.last()) == a);
    } else {
        assert(a == Seq::<u8>::empty());
    }
}

/// Appending `/` and a name adds that name as the last piece.
proof fn lemma_pieces_append(x: Seq<u8>, y: Seq<u8>)
    requires
        !y.contains(47u8),
    ensures
        path_pieces(x + seq![47u8] + y) == path_pieces(x).push(y),
    decreases y.len(),
{
    if y.len() == 0 {
        assert(x + seq![47u8] + y == x.push(47u8));
        assert((x.push(47u8)).drop_last() == x);
        assert(y == Seq::<u8>::empty());
        assert(path_pieces(x.push(47u8)) == path_pieces(x).push(Seq::<u8>::empty()));
    } else {
        let y0 = y.drop_last();
        assert(!y0.contains(47u8)) by {
            if y0.contains(47u8) {
                let j = choose|j: int| 0 <= j < y0.len() && y0[j] == 47u8;
                assert(y[j] == 47u8);
            }
        }
        lemma_pieces_append(x, y0);
        let whole = x + seq![47u8] + y;
        assert(whole.drop_last() == x + seq![47u8] + y0);
        assert(whole.last() == y[y.len() - 1]);
        assert(y[y.len() - 1] != 47u8);
        assert(y0.push(y.last()) == y);
        let ps = path_pieces(x).push(y0);
        assert(path_pieces(whole) == ps.update(ps.len() - 1, ps.last().push(whole.last())));
        assert(ps.update(ps.len() - 1, y) =~= path_pieces(x).push(y));
    }
}

/// Joining names without `/` and splitting again gives them back.
proof fn lemma_pieces_of_join(k: Seq<Seq<u8>>)
    requires
        k.len() > 0,
        forall|i: int| 0 <= i < k.len() ==> !(#[trigger] k[i]).contains(47u8),
    ensures
        path_pieces(join_components(k)) == k,
    decreases k.len(),
{
    if k.len() == 1 {
        lemma_pieces_of_name(k[0]);
        assert(seq![k[0]] == k);
    } else {
        let init = k.drop_last();
        assert forall|i: int| 0 <= i < init.len() implies !(#[trigger] init[i]).contains(47u8) by {
            assert(init[i] == k[i]);
        }
        lemma_pieces_of_join(init);
        assert(!k[k.len() - 1].contains(47u8));
        lemma_pieces_append(join_components(init), k.last());
        assert(init.push(k.last()) == k);
    }
}

/// The first byte of a join of non-empty names is that of the first name.
proof fn lemma_join_first(k: Seq<Seq<u8>>)
    requires
        k.len() > 0,
        forall|i: int| 0 <= i < k.len() ==> (#[trigger] k[i]).len() > 0,
    ensures
        join_components(k).len() > 0,
        join_components(k)[0] == k[0][0],
    decreases k.len(),
{
    if k.len() > 1 {
        let init = k.drop_last();
        assert forall|i: int| 0 <= i < init.len() implies (#[trigger] init[i]).len() > 0 by {
            assert(init[i] == k[i]);
        }
        lemma_join_first(init);
        assert(init[0] == k[0]);
    }
}

/// An entry path that [`safe_rel`] accepts stays under the destination: the
/// result is not absolute, every component of it is a normal name — none
/// empty, `.` or `..` — and sanitizing it again changes nothing.
pub proof fn lemma_safe_rel_stays_inside(p: Seq<u8>)
    ensures
        spec_safe_rel(p) matches Some(q) ==> {
            &&& q.len() > 0
            &&& q[0] != 47u8
            &&& forall|i: int| 0 <= i < path_pieces(q).len() ==> normal_name(#[trigger] path_pieces(q)[i])
            &&& spec_safe_rel(q) == Some(q)
        },
{
    if let Some(q) = spec_safe_rel(p) {
        lemma_pieces_have_no_slash(p);
        lemma_components_normal(path_pieces(p));
        let k = normal_components(path_pieces(p)).unwrap();
        assert(q == join_components(k));
        assert forall|i: int| 0 <= i < k.len() implies !(#[trigger] k[i]).contains(47u8) by {
            assert(normal_name(k[i]));
        }
        lemma_pieces_of_join(k);
        assert forall|i: int| 0 <= i < k.len() implies (#[trigger] k[i]).len() > 0 by {
            assert(normal_name(k[i]));
        }
        lemma_join_first(k);
        assert(normal_name(k[0]));
        if k[0][0] == 47u8 {
            assert(k[0].contains(47u8));
        }
        lemma_normal_components_keep(k);
    }
}

} // verus!

verus! {

/// A directory entry's planned mode is its header mode's permission bits:
/// the `rwx` bits and the setuid, setgid and sticky bits of `mode` are all
/// kept, and nothing above them is.
pub proof fn lemma_directory_mode_bits(p: EntryPlan, rel: Seq<u8>, mode: u32, link: Option<&[u8]>)
    requires
        plan_for(p, TarKind::Directory, rel, Some(mode), link),
    ensures
        p matches EntryPlan::Directory { rel: r, mode: Some(m) } && {
            &&& r@ == rel
            &&& m & 0o777u32 == mode & 0o777u32
            &&& m & 0o1000u32 == mode & 0o1000u32
            &&& m & 0o2000u32 == mode & 0o2000u32
            &&& m & 0o4000u32 == mode & 0o4000u32
            &&& m <= 0o7777u32
        },
{
    if let EntryPlan::Directory { rel: r, mode: Some(m) } = p {
        assert(m == mode & 0o7777u32);
        assert(m & 0o777u32 == mode & 0o777u32 && m & 0o1000u32 == mode & 0o1000u32 && m & 0o2000u32 == mode
            & 0o2000u32 && m & 0o4000u32 == mode & 0o4000u32 && m <= 0o7777u32) by (bit_vector)
            requires
                m == mode & 0o7777u32,
        ;
    }
}

} // verus!
