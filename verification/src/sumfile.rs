//! Checking a file's sha256 against a coreutils-style `sha256sum.txt`.
//!
//! Hashing the file is I/O and happens outside this library; what is here
//! is reading the checksum list and comparing.
use vstd::prelude::*;
use crate::digest::str_eq_ignore_ascii_case;
use crate::text::{
    chars_of, eq_ignore_ascii_case, find_first, find_first_in, find_first_ws, find_ws_in, lines,
    ranges_eq, strip_at, strip_cr, strip_start_at, trim, trim_start, string_of,
};

verus! {

/// The hash a single `sha256sum.txt` line gives for `name`: the line splits
/// at its first whitespace character into a hash and a file name; the entry
/// applies when the file name, without leading whitespace, is `name`.
pub open spec fn sum_entry(line: Seq<char>, name: Seq<char>) -> Option<Seq<char>> {
    match find_first_ws(line) {
        Some(i) => if trim_start(line.skip(i + 1)) == name {
            Some(trim(line.take(i)))
        } else {
            None
        },
        None => None,
    }
}

/// The hash of the first line in `ls` that has an entry for `name`.
pub open spec fn sum_lookup(ls: Seq<Seq<char>>, name: Seq<char>) -> Option<Seq<char>>
    decreases ls.len(),
{
    if ls.len() == 0 {
        None
    } else {
        match sum_entry(ls[0], name) {
            Some(h) => Some(h),
            None => sum_lookup(ls.drop_first(), name),
        }
    }
}

/// Why a file failed verification against a checksum list.
#[derive(Clone, Debug)]
pub enum SumfileError {
    /// The list has no entry for the file.
    NoEntry {
        name: String,
    },
    /// The file's sha256 differs from the listed one.
    Mismatch {
        name: String,
        expected: String,
        actual: String,
    },
}

proof fn lemma_lines_step(v: Seq<char>, start: int, i: int, len: int)
    requires
        0 <= start <= i < len == v.len(),
        v[i] == '\n',
        forall|j: int| start <= j < i ==> v[j] != '\n',
    ensures
        lines(v.subrange(start, len)) == seq![strip_cr(v.subrange(start, i))] + lines(
            v.subrange(i + 1, len),
        ),
{
    let sub = v.subrange(start, len);
    assert(sub[i - start] == '\n');
    assert forall|j: int| 0 <= j < i - start implies sub[j] != '\n' by {
        assert(sub[j] == v[start + j]);
    }
    crate::text::lemma_find_first_unique(sub, '\n', i - start);
    assert(sub.take(i - start) == v.subrange(start, i));
    assert(sub.skip(i - start + 1) == v.subrange(i + 1, len));
}

proof fn lemma_lines_last(v: Seq<char>, start: int, len: int)
    requires
        0 <= start < len == v.len(),
        forall|j: int| start <= j < len ==> v[j] != '\n',
    ensures
        lines(v.subrange(start, len)) == seq![v.subrange(start, len)],
{
    let sub = v.subrange(start, len);
    assert forall|j: int| 0 <= j < sub.len() implies sub[j] != '\n' by {
        assert(sub[j] == v[start + j]);
    }
    crate::text::lemma_find_first_none(sub, '\n');
}

/// The entry line `v[ls..le]` gives for `name`, as a range of `v`.
fn entry_in(v: &Vec<char>, ls: usize, le: usize, name: &Vec<char>) -> (r: Option<(usize, usize)>)
    requires
        ls <= le <= v@.len(),
    ensures
        match r {
            Some((a, b)) => a <= b <= v@.len() && sum_entry(v@.subrange(ls as int, le as int), name@)
                == Some(v@.subrange(a as int, b as int)),
            None => sum_entry(v@.subrange(ls as int, le as int), name@) is None,
        },
{
    let ghost line = v@.subrange(ls as int, le as int);
    match find_ws_in(v, ls, le) {
        Some(i) => {
            let f = strip_start_at(v, i + 1, le, false);
            assert(line.skip(i - ls + 1) == v@.subrange(i + 1, le as int));
            assert(name@.subrange(0, name@.len() as int) == name@);
            if ranges_eq(v, f, le, name, 0, name.len()) {
                let (a, b) = strip_at(v, ls, i, false);
                assert(line.take(i - ls) == v@.subrange(ls as int, i as int));
                Some((a, b))
            } else {
                None
            }
        },
        None => None,
    }
}

/// The hash `sha256sum.txt` text `body` lists for file `name`, if any.
pub fn sumfile_entry(body: &str, name: &str) -> (r: Option<String>)
    ensures
        match r {
            Some(h) => sum_lookup(lines(body@), name@) == Some(h@),
            None => sum_lookup(lines(body@), name@) is None,
        },
{
    let v = chars_of(body);
    let nm = chars_of(name);
    let len = v.len();
    assert(v@.subrange(0, len as int) == v@);
    let mut start: usize = 0;
    while start < len
        invariant
            start <= len == v@.len(),
            v@ == body@,
            nm@ == name@,
            sum_lookup(lines(body@), name@) == sum_lookup(lines(v@.subrange(start as int, len as int)), name@),
        decreases len - start,
    {
        match find_first_in(&v, start, len, '\n') {
            Some(i) => {
                proof {
                    lemma_lines_step(v@, start as int, i as int, len as int);
                }
                let le = if i > start && v[i - 1] == '\r' {
                    i - 1
                } else {
                    i
                };
                assert(strip_cr(v@.subrange(start as int, i as int)) == v@.subrange(start as int, le as int));
                let ghost rest = lines(v@.subrange(start as int, len as int));
                assert(rest.drop_first() == lines(v@.subrange(i + 1, len as int)));
                match entry_in(&v, start, le, &nm) {
                    Some((a, b)) => {
                        return Some(string_of(&v, a, b));
                    },
                    None => {},
                }
                start = i + 1;
            },
            None => {
                proof {
                    lemma_lines_last(v@, start as int, len as int);
                }
                let ghost rest = lines(v@.subrange(start as int, len as int));
                assert(rest.drop_first().len() == 0);
                match entry_in(&v, start, len, &nm) {
                    Some((a, b)) => {
                        return Some(string_of(&v, a, b));
                    },
                    None => {},
                }
                assert(sum_lookup(rest.drop_first(), name@) is None);
                return None;
            },
        }
    }
    assert(v@.subrange(start as int, len as int).len() == 0);
    None
}

/// Verify that a file named `name` whose sha256 (hex) is `actual` matches
/// the digest listed for it in a `sha256sum.txt` body. Errors if there is no
/// entry, or if the listed hash differs (ignoring ASCII case).
pub fn verify_against_sumfile(name: &str, sumfile_body: &str, actual: &str) -> (r: Result<(), SumfileError>)
    ensures
        match sum_lookup(lines(sumfile_body@), name@) {
            None => r matches Err(SumfileError::NoEntry { name: n }) && n@ == name@,
            Some(expected) => if eq_ignore_ascii_case(actual@, expected) {
                r is Ok
            } else {
                r matches Err(SumfileError::Mismatch { name: n, expected: e, actual: a }) && n@ == name@
                    && e@ == expected && a@ == actual@
            },
        },
{
    let expected = match sumfile_entry(sumfile_body, name) {
        Some(e) => e,
        None => return Err(SumfileError::NoEntry { name: String::from_str(name) }),
    };
    if str_eq_ignore_ascii_case(actual, expected.as_str()) {
        Ok(())
    } else {
        Err(
            SumfileError::Mismatch {
                name: String::from_str(name),
                expected,
                actual: String::from_str(actual),
            },
        )
    }
}

} // verus!
