//! The upstream OpenShift mirror: paths, architecture aliases and version
//! discovery. Fetching from the mirror happens outside this library; what is
//! here is building its URLs and reading its directory listings.
use vstd::prelude::*;
use crate::text::{chars_of, find_first_in, split_by, split_once, string_of};

verus! {

/// Whether `s` reads exactly `lit`.
pub fn str_is(s: &str, lit: &str) -> (r: bool)
    ensures
        r == (s@ == lit@),
{
    let a = chars_of(s);
    let b = chars_of(lit);
    assert(a@.subrange(0, a@.len() as int) == a@);
    assert(b@.subrange(0, b@.len() as int) == b@);
    crate::text::ranges_eq(&a, 0, a.len(), &b, 0, b.len())
}

/// The mirror's alias of a kernel-arch name: `x86_64 → amd64`,
/// `aarch64 → arm64`, anything else unchanged.
pub open spec fn spec_mirror_arch(arch: Seq<char>) -> Seq<char> {
    if arch == "x86_64"@ {
        "amd64"@
    } else if arch == "aarch64"@ {
        "arm64"@
    } else {
        arch
    }
}

/// Translate a kernel-arch name to the alias used in mirror paths.
pub fn mirror_arch(arch: &str) -> (r: &str)
    ensures
        r@ == spec_mirror_arch(arch@),
{
    if str_is(arch, "x86_64") {
        "amd64"
    } else if str_is(arch, "aarch64") {
        "arm64"
    } else {
        arch
    }
}

/// The `major.minor` of a version or series: its first two `.`-separated
/// pieces joined by `.` (or the whole text when it has no `.`).
pub open spec fn spec_major_minor(s: Seq<char>) -> Seq<char> {
    let parts = split_by(s, '.');
    if parts.len() >= 2 {
        parts[0] + seq!['.'] + parts[1]
    } else {
        parts[0]
    }
}

proof fn lemma_split_by_head(s: Seq<char>, c: char)
    ensures
        split_by(s, c).len() >= 1,
        match split_once(s, c) {
            Some((a, b)) => split_by(s, c)[0] == a && split_by(s, c).drop_first() == split_by(b, c),
            None => split_by(s, c) == seq![s],
        },
    decreases s.len(),
{
    crate::text::lemma_find_first_facts(s, c);
    match crate::text::find_first(s, c) {
        Some(i) => {
            let rest = split_by(s.skip(i + 1), c);
            assert((seq![s.take(i)] + rest).drop_first() == rest);
        },
        None => {},
    }
}

/// `version_or_series.split('.').take(2).join(".")`.
pub fn major_minor(version_or_series: &str) -> (r: String)
    ensures
        r@ == spec_major_minor(version_or_series@),
{
    let v = chars_of(version_or_series);
    let len = v.len();
    assert(v@.subrange(0, len as int) == v@);
    proof {
        lemma_split_by_head(v@, '.');
    }
    match find_first_in(&v, 0, len, '.') {
        None => string_of(&v, 0, len),
        Some(i) => {
            let ghost rest = v@.skip(i + 1);
            assert(rest == v@.subrange(i + 1, len as int));
            proof {
                lemma_split_by_head(rest, '.');
            }
            match find_first_in(&v, i + 1, len, '.') {
                Some(j) => {
                    assert(rest.take(j - i - 1) == v@.subrange(i + 1, j as int));
                    assert(v@.take(i as int) + seq!['.'] + v@.subrange(i + 1, j as int) == v@.subrange(0, j as int));
                    string_of(&v, 0, j)
                },
                None => {
                    assert(v@.take(i as int) + seq!['.'] + rest == v@);
                    string_of(&v, 0, len)
                },
            }
        },
    }
}

/// Directory URL holding the z-stream releases for a series.
pub fn series_url(series: &str, arch: &str) -> (u: String)
    ensures
        u@ == "https://mirror.openshift.com/pub/openshift-v4"@ + "/"@ + spec_mirror_arch(arch@)
            + "/dependencies/rhcos/"@ + spec_major_minor(series@) + "/"@,
{
    let march = mirror_arch(arch);
    let mver = major_minor(series);
    let mut u = String::from_str("https://mirror.openshift.com/pub/openshift-v4");
    u.append("/");
    u.append(march);
    u.append("/dependencies/rhcos/");
    u.append(mver.as_str());
    u.append("/");
    u
}

/// Full URL to a single artifact file for a specific version.
pub fn artifact_url(version: &str, arch: &str, file: &str) -> (u: String)
    ensures
        u@ == "https://mirror.openshift.com/pub/openshift-v4"@ + "/"@ + spec_mirror_arch(arch@)
            + "/dependencies/rhcos/"@ + spec_major_minor(version@) + "/"@ + version@ + "/"@ + file@,
{
    let march = mirror_arch(arch);
    let mver = major_minor(version);
    let mut u = String::from_str("https://mirror.openshift.com/pub/openshift-v4");
    u.append("/");
    u.append(march);
    u.append("/dependencies/rhcos/");
    u.append(mver.as_str());
    u.append("/");
    u.append(version);
    u.append("/");
    u.append(file);
    u
}

} // verus!

verus! {

// ── Version listing ──────────────────────────────────────────────────────

/// The text that opens a link in a directory listing: `href="`.
pub open spec fn href_open() -> Seq<char> {
    seq!['h', 'r', 'e', 'f', '=', '"']
}

/// Where the run of ASCII decimal digits that starts at `i` in `s` ends.
pub open spec fn digits_end(s: Seq<char>, i: int) -> int
    decreases s.len() - i,
{
    if 0 <= i < s.len() && is_digit(s[i]) {
        digits_end(s, i + 1)
    } else {
        i
    }
}

/// The version a link at position `p` of a listing names, if the listing
/// has one there: `href="`, then three non-empty runs of ASCII digits
/// separated by `.`, then `/"`. The version is the text of the three runs
/// and the two dots between them.
pub open spec fn version_link_at(s: Seq<char>, p: int) -> Option<Seq<char>> {
    let a = p + 6;
    let e1 = digits_end(s, a);
    let e2 = digits_end(s, e1 + 1);
    let e3 = digits_end(s, e2 + 1);
    if 0 <= p && a <= s.len() && s.subrange(p, a) == href_open() && a < e1 < s.len() && s[e1]
        == '.' && e1 + 1 < e2 < s.len() && s[e2] == '.' && e2 + 1 < e3 && e3 + 2 <= s.len() && s[e3]
        == '/' && s[e3 + 1] == '"' {
        Some(s.subrange(a, e3))
    } else {
        None
    }
}

/// The versions named by the links that start before position `p`, in the
/// order they appear.
pub open spec fn href_versions_before(s: Seq<char>, p: int) -> Seq<Seq<char>>
    decreases p,
{
    if p <= 0 {
        Seq::empty()
    } else {
        let before = href_versions_before(s, p - 1);
        match version_link_at(s, p - 1) {
            Some(t) => before.push(t),
            None => before,
        }
    }
}

/// The version texts a mirror directory listing links to, in order.
pub open spec fn href_versions(listing: Seq<char>) -> Seq<Seq<char>> {
    href_versions_before(listing, listing.len() as int)
}

/// The end of the run of ASCII digits that starts at `i`.
fn digits_end_in(v: &Vec<char>, i: usize) -> (e: usize)
    requires
        i <= v@.len(),
    ensures
        e == digits_end(v@, i as int),
        i <= e <= v@.len(),
{
    let mut e = i;
    while e < v.len() && '0' <= v[e] && v[e] <= '9'
        invariant
            i <= e <= v@.len(),
            digits_end(v@, e as int) == digits_end(v@, i as int),
        decreases v@.len() - e,
    {
        e += 1;
    }
    e
}

/// The bounds of the version a link at `p` names, if there is one there.
fn link_at(v: &Vec<char>, p: usize) -> (r: Option<(usize, usize)>)
    requires
        p <= v@.len(),
    ensures
        match version_link_at(v@, p as int) {
            Some(t) => r matches Some((a, e)) && a <= e <= v@.len() && v@.subrange(a as int, e as int)
                == t,
            None => r is None,
        },
{
    let n = v.len();
    if n - p < 6 {
        return None;
    }
    let open: Vec<char> = vec!['h', 'r', 'e', 'f', '=', '"'];
    assert(open@ == href_open());
    assert(open@.subrange(0, 6) == open@);
    if !crate::text::ranges_eq(v, p, p + 6, &open, 0, 6) {
        return None;
    }
    let a = p + 6;
    let e1 = digits_end_in(v, a);
    if !(a < e1 && e1 < n && v[e1] == '.') {
        return None;
    }
    let e2 = digits_end_in(v, e1 + 1);
    if !(e1 + 1 < e2 && e2 < n && v[e2] == '.') {
        return None;
    }
    let e3 = digits_end_in(v, e2 + 1);
    if !(e2 + 1 < e3 && n - e3 >= 2 && v[e3] == '/' && v[e3 + 1] == '"') {
        return None;
    }
    Some((a, e3))
}

/// The version texts a mirror directory listing links to, in the order they
/// appear: every `href="x.y.z/"` where `x`, `y` and `z` are runs of ASCII
/// digits.
pub fn listed_versions(listing: &str) -> (r: Vec<String>)
    ensures
        Seq::new(r@.len(), |i: int| r@[i]@) == href_versions(listing@),
{
    let v = chars_of(listing);
    let mut r: Vec<String> = Vec::new();
    let mut p: usize = 0;
    while p < v.len()
        invariant
            p <= v@.len(),
            v@ == listing@,
            Seq::new(r@.len(), |i: int| r@[i]@) == href_versions_before(v@, p as int),
        decreases v@.len() - p,
    {
        let ghost before = Seq::new(r@.len(), |i: int| r@[i]@);
        match link_at(&v, p) {
            Some((a, e)) => {
                r.push(string_of(&v, a, e));
                assert(Seq::new(r@.len(), |i: int| r@[i]@) == before.push(v@.subrange(a as int, e as int)));
            },
            None => {},
        }
        p += 1;
    }
    r
}

/// An ASCII decimal digit.
pub open spec fn is_digit(c: char) -> bool {
    '0' <= c && c <= '9'
}

/// Every character is an ASCII decimal digit.
pub open spec fn all_digits(s: Seq<char>) -> bool {
    forall|i: int| 0 <= i < s.len() ==> is_digit(#[trigger] s[i])
}

/// The value of a string of ASCII decimal digits.
pub open spec fn decimal(s: Seq<char>) -> nat
    decreases s.len(),
{
    if s.len() == 0 {
        0
    } else {
        decimal(s.drop_last()) * 10 + ((s.last() as nat) - ('0' as nat)) as nat
    }
}

/// `u64::from_str`: an optional `+` then one or more ASCII digits whose
/// value fits in a `u64`.
pub open spec fn spec_parse_u64(s: Seq<char>) -> Option<u64> {
    let d = if s.len() > 0 && s[0] == '+' {
        s.drop_first()
    } else {
        s
    };
    if d.len() > 0 && all_digits(d) && decimal(d) <= u64::MAX {
        Some(decimal(d) as u64)
    } else {
        None
    }
}

proof fn lemma_decimal_grows(s: Seq<char>, k: int)
    requires
        0 <= k <= s.len(),
        forall|i: int| 0 <= i < s.len() ==> is_digit(s[i]),
    ensures
        decimal(s.take(k)) <= decimal(s),
    decreases s.len() - k,
{
    if k < s.len() {
        lemma_decimal_grows(s, k + 1);
        assert(s.take(k + 1).drop_last() == s.take(k));
    } else {
        assert(s.take(k) == s);
    }
}

/// `u64::from_str` on `v[lo..hi]`.
pub fn parse_u64_in(v: &Vec<char>, lo: usize, hi: usize) -> (r: Option<u64>)
    requires
        lo <= hi <= v@.len(),
    ensures
        r == spec_parse_u64(v@.subrange(lo as int, hi as int)),
{
    let ghost s = v@.subrange(lo as int, hi as int);
    let start = if lo < hi && v[lo] == '+' {
        lo + 1
    } else {
        lo
    };
    let ghost d = v@.subrange(start as int, hi as int);
    assert(d == (if s.len() > 0 && s[0] == '+' {
        s.drop_first()
    } else {
        s
    }));
    if start == hi {
        return None;
    }
    let ghost want = spec_parse_u64(s);
    assert(d.len() > 0);
    let ghost dd = if s.len() > 0 && s[0] == '+' {
        s.drop_first()
    } else {
        s
    };
    assert(dd == d);
    assert(want == (if all_digits(d) && decimal(d) <= u64::MAX {
        Some(decimal(d) as u64)
    } else {
        None
    }));
    let mut value: u64 = 0;
    let mut i = start;
    while i < hi
        invariant
            lo <= start <= i <= hi <= v@.len(),
            d == v@.subrange(start as int, hi as int),
            s == v@.subrange(lo as int, hi as int),
            want == spec_parse_u64(s),
            want == (if all_digits(d) && decimal(d) <= u64::MAX {
                Some(decimal(d) as u64)
            } else {
                None
            }),
            forall|j: int| start <= j < i ==> is_digit(v@[j]),
            value == decimal(d.take(i - start)),
        decreases hi - i,
    {
        let c = v[i];
        if !('0' <= c && c <= '9') {
            assert(!is_digit(d[i - start]));
            return None;
        }
        let dig = (c as u32 - '0' as u32) as u64;
        assert(d.take(i - start + 1).drop_last() == d.take(i - start));
        if value > (u64::MAX - dig) / 10 {
            proof {
                assert(decimal(d.take(i - start + 1)) > u64::MAX) by (nonlinear_arith)
                    requires
                        value > (u64::MAX - dig) / 10,
                        decimal(d.take(i - start + 1)) == value * 10 + dig,
                        dig <= 9,
                ;
                if all_digits(d) {
                    lemma_decimal_grows(d, i - start + 1);
                }
            }
            return None;
        }
        assert(value * 10 + dig <= u64::MAX) by (nonlinear_arith)
            requires
                value <= (u64::MAX - dig) / 10,
                dig <= 9,
        ;
        value = value * 10 + dig;
        i += 1;
    }
    assert(d.take(hi - start) == d);
    Some(value)
}

/// The `u64` values of the pieces that parse, in order
/// (`filter_map(|x| x.parse().ok())`).
pub open spec fn parsed_pieces(ps: Seq<Seq<char>>) -> Seq<u64>
    decreases ps.len(),
{
    if ps.len() == 0 {
        Seq::empty()
    } else {
        let before = parsed_pieces(ps.drop_last());
        match spec_parse_u64(ps.last()) {
            Some(x) => before.push(x),
            None => before,
        }
    }
}

/// The numeric key of a listed version `x.y.z`: present when exactly three of
/// its `.`-separated pieces parse as `u64`.
pub open spec fn version_key(s: Seq<char>) -> Option<(u64, u64, u64)> {
    let p = parsed_pieces(split_by(s, '.'));
    if p.len() == 3 {
        Some((p[0], p[1], p[2]))
    } else {
        None
    }
}

/// Lexicographic order of strings by character (the order of `String`).
pub open spec fn seq_before(a: Seq<char>, b: Seq<char>) -> bool
    decreases a.len(),
{
    if a.len() == 0 {
        b.len() > 0
    } else if b.len() == 0 {
        false
    } else if a[0] != b[0] {
        a[0] < b[0]
    } else {
        seq_before(a.drop_first(), b.drop_first())
    }
}

/// The order of `(major, minor, patch, text)` tuples: numbers first, then
/// the text.
pub open spec fn version_before(a: (u64, u64, u64, Seq<char>), b: (u64, u64, u64, Seq<char>)) -> bool {
    if a.0 != b.0 {
        a.0 < b.0
    } else if a.1 != b.1 {
        a.1 < b.1
    } else if a.2 != b.2 {
        a.2 < b.2
    } else {
        seq_before(a.3, b.3)
    }
}

/// The greatest `(major, minor, patch, text)` among the listed versions that
/// have a numeric key.
pub open spec fn latest_among(caps: Seq<Seq<char>>) -> Option<(u64, u64, u64, Seq<char>)>
    decreases caps.len(),
{
    if caps.len() == 0 {
        None
    } else {
        let best = latest_among(caps.drop_last());
        match version_key(caps.last()) {
            None => best,
            Some((x, y, z)) => {
                let cand = (x, y, z, caps.last());
                match best {
                    None => Some(cand),
                    Some(b) => if version_before(b, cand) {
                        Some(cand)
                    } else {
                        Some(b)
                    },
                }
            },
        }
    }
}

/// Whether `a` sorts before `b`.
fn chars_before(a: &Vec<char>, b: &Vec<char>) -> (r: bool)
    ensures
        r == seq_before(a@, b@),
{
    let mut i: usize = 0;
    assert(a@.skip(0) == a@);
    assert(b@.skip(0) == b@);
    while i < a.len() && i < b.len() && a[i] == b[i]
        invariant
            i <= a@.len(),
            i <= b@.len(),
            seq_before(a@, b@) == seq_before(a@.skip(i as int), b@.skip(i as int)),
        decreases a@.len() - i,
    {
        assert(a@.skip(i as int).drop_first() == a@.skip(i + 1));
        assert(b@.skip(i as int).drop_first() == b@.skip(i + 1));
        i += 1;
    }
    if i == a.len() {
        i < b.len()
    } else if i == b.len() {
        false
    } else {
        a[i] < b[i]
    }
}

/// The key of one captured version text, when exactly three of its pieces
/// parse.
fn key_of(v: &Vec<char>) -> (r: Option<(u64, u64, u64)>)
    ensures
        r == version_key(v@),
{
    let len = v.len();
    let mut vals: Vec<u64> = Vec::new();
    let ghost mut done: Seq<Seq<char>> = Seq::empty();
    let mut start: usize = 0;
    assert(v@.subrange(0, len as int) == v@);
    loop
        invariant_except_break
            split_by(v@, '.') == done + split_by(v@.subrange(start as int, len as int), '.'),
        invariant
            start <= len == v@.len(),
            vals@ == parsed_pieces(done),
        ensures
            vals@ == parsed_pieces(split_by(v@, '.')),
        decreases len - start,
    {
        let ghost rest = v@.subrange(start as int, len as int);
        proof {
            lemma_split_by_head(rest, '.');
            crate::text::lemma_find_first_facts(rest, '.');
        }
        match find_first_in(v, start, len, '.') {
            Some(i) => {
                let ghost piece = v@.subrange(start as int, i as int);
                assert(rest.take(i - start) == piece);
                assert(rest.skip(i - start + 1) == v@.subrange(i + 1, len as int));
                match parse_u64_in(v, start, i) {
                    Some(x) => vals.push(x),
                    None => {},
                }
                proof {
                    assert(done.push(piece).drop_last() == done);
                    assert(split_by(v@, '.') == done.push(piece) + split_by(
                        v@.subrange(i + 1, len as int),
                        '.',
                    ));
                    done = done.push(piece);
                }
                start = i + 1;
            },
            None => {
                match parse_u64_in(v, start, len) {
                    Some(x) => vals.push(x),
                    None => {},
                }
                proof {
                    assert(done.push(rest).drop_last() == done);
                    assert(split_by(v@, '.') == done.push(rest));
                    done = done.push(rest);
                }
                break;
            },
        }
    }
    if vals.len() == 3 {
        Some((vals[0], vals[1], vals[2]))
    } else {
        None
    }
}

/// The highest of the given version texts: greatest by `(major, minor,
/// patch)` and then by text, among those with exactly three numeric pieces.
pub fn latest_of(caps: &Vec<String>) -> (r: Option<String>)
    ensures
        match latest_among(Seq::new(caps@.len(), |i: int| caps@[i]@)) {
            Some(b) => r matches Some(s) && s@ == b.3,
            None => r is None,
        },
{
    let ghost views = Seq::new(caps@.len(), |i: int| caps@[i]@);
    let mut best: Option<(u64, u64, u64, Vec<char>)> = None;
    let mut best_idx: usize = 0;
    let mut i: usize = 0;
    while i < caps.len()
        invariant
            i <= caps@.len(),
            views == Seq::new(caps@.len(), |i: int| caps@[i]@),
            match latest_among(views.take(i as int)) {
                Some(b) => best matches Some(t) && t.0 == b.0 && t.1 == b.1 && t.2 == b.2 && t.3@ == b.3
                    && best_idx < caps@.len() && caps@[best_idx as int]@ == b.3,
                None => best is None,
            },
        decreases caps@.len() - i,
    {
        let v = crate::text::chars_of(caps[i].as_str());
        assert(views.take(i + 1).drop_last() == views.take(i as int));
        assert(views.take(i + 1).last() == v@);
        match key_of(&v) {
            None => {},
            Some((x, y, z)) => {
                let better = match &best {
                    None => true,
                    Some(b) => {
                        if b.0 != x {
                            b.0 < x
                        } else if b.1 != y {
                            b.1 < y
                        } else if b.2 != z {
                            b.2 < z
                        } else {
                            chars_before(&b.3, &v)
                        }
                    },
                };
                if better {
                    best = Some((x, y, z, v));
                    best_idx = i;
                }
            },
        }
        i += 1;
    }
    assert(views.take(caps@.len() as int) == views);
    match best {
        Some(_) => Some(caps[best_idx].clone()),
        None => None,
    }
}

/// The highest `x.y.z` version a mirror directory listing links to.
pub fn latest_version(listing: &str) -> (r: Option<String>)
    ensures
        match latest_among(href_versions(listing@)) {
            Some(b) => r matches Some(s) && s@ == b.3,
            None => r is None,
        },
{
    let caps = listed_versions(listing);
    latest_of(&caps)
}

} // verus!

verus! {

/// A listed version text with its numeric key, for comparison.
pub open spec fn keyed_version(s: Seq<char>) -> (u64, u64, u64, Seq<char>) {
    let k = version_key(s).unwrap();
    (k.0, k.1, k.2, s)
}

proof fn lemma_seq_before_irreflexive(a: Seq<char>)
    ensures
        !seq_before(a, a),
    decreases a.len(),
{
    if a.len() > 0 {
        lemma_seq_before_irreflexive(a.drop_first());
    }
}

proof fn lemma_seq_before_transitive(a: Seq<char>, b: Seq<char>, c: Seq<char>)
    requires
        seq_before(a, b),
        seq_before(b, c),
    ensures
        seq_before(a, c),
    decreases a.len(),
{
    if a.len() > 0 && b.len() > 0 && c.len() > 0 && a[0] == b[0] && b[0] == c[0] {
        lemma_seq_before_transitive(a.drop_first(), b.drop_first(), c.drop_first());
    }
}

proof fn lemma_version_before_transitive(
    a: (u64, u64, u64, Seq<char>),
    b: (u64, u64, u64, Seq<char>),
    c: (u64, u64, u64, Seq<char>),
)
    requires
        version_before(a, b),
        version_before(b, c),
    ensures
        version_before(a, c),
{
    if a.0 == b.0 && b.0 == c.0 && a.1 == b.1 && b.1 == c.1 && a.2 == b.2 && b.2 == c.2 {
        lemma_seq_before_transitive(a.3, b.3, c.3);
    }
}

/// The version [`latest_version`] reports is the highest listed: it is one
/// of the listed versions with a numeric key, and no listed version with a
/// key sorts after it. With no keyed version listed, nothing is reported.
pub proof fn lemma_latest_is_greatest(caps: Seq<Seq<char>>)
    ensures
        match latest_among(caps) {
            Some(b) => {
                &&& exists|i: int|
                    0 <= i < caps.len() && #[trigger] version_key(caps[i]) == Some((b.0, b.1, b.2))
                        && caps[i] == b.3
                &&& forall|i: int|
                    0 <= i < caps.len() && #[trigger] version_key(caps[i]) is Some ==> !version_before(
                        b,
                        keyed_version(caps[i]),
                    )
            },
            None => forall|i: int| 0 <= i < caps.len() ==> #[trigger] version_key(caps[i]) is None,
        },
    decreases caps.len(),
{
    if caps.len() > 0 {
        let init = caps.drop_last();
        let n = caps.len() - 1;
        lemma_latest_is_greatest(init);
        assert forall|i: int| 0 <= i < init.len() implies #[trigger] init[i] == caps[i] by {}
        match version_key(caps.last()) {
            None => {
                match latest_among(init) {
                    Some(b) => {
                        let w = choose|i: int|
                            0 <= i < init.len() && #[trigger] version_key(init[i]) == Some((b.0, b.1, b.2))
                                && init[i] == b.3;
                        assert(caps[w] == init[w]);
                        assert forall|i: int|
                            0 <= i < caps.len() && #[trigger] version_key(caps[i]) is Some implies !version_before(
                                b,
                                keyed_version(caps[i]),
                            ) by {
                            if i < n {
                                assert(init[i] == caps[i]);
                            }
                        }
                    },
                    None => {
                        assert forall|i: int| 0 <= i < caps.len() implies #[trigger] version_key(caps[i]) is None by {
                            if i < n {
                                assert(init[i] == caps[i]);
                            }
                        }
                    },
                }
            },
            Some((x, y, z)) => {
                let cand = (x, y, z, caps.last());
                lemma_seq_before_irreflexive(caps.last());
                match latest_among(init) {
                    None => {
                        assert forall|i: int|
                            0 <= i < caps.len() && #[trigger] version_key(caps[i]) is Some implies !version_before(
                                cand,
                                keyed_version(caps[i]),
                            ) by {
                            if i < n {
                                assert(init[i] == caps[i]);
                            }
                        }
                        assert(version_key(caps[n]) == Some((cand.0, cand.1, cand.2)));
                    },
                    Some(b) => {
                        let w = choose|i: int|
                            0 <= i < init.len() && #[trigger] version_key(init[i]) == Some((b.0, b.1, b.2))
                                && init[i] == b.3;
                        assert(caps[w] == init[w]);
                        if version_before(b, cand) {
                            assert forall|i: int|
                                0 <= i < caps.len() && #[trigger] version_key(caps[i]) is Some implies !version_before(
                                    cand,
                                    keyed_version(caps[i]),
                                ) by {
                                if i < n {
                                    assert(init[i] == caps[i]);
                                    let e = keyed_version(caps[i]);
                                    if version_before(cand, e) {
                                        lemma_version_before_transitive(b, cand, e);
                                    }
                                }
                            }
                            assert(version_key(caps[n]) == Some((cand.0, cand.1, cand.2)));
                        } else {
                            assert forall|i: int|
                                0 <= i < caps.len() && #[trigger] version_key(caps[i]) is Some implies !version_before(
                                    b,
                                    keyed_version(caps[i]),
                                ) by {
                                if i < n {
                                    assert(init[i] == caps[i]);
                                }
                            }
                        }
                    },
                }
            },
        }
    }
}

} // verus!
