//! Registry credentials from a Docker `config.json` / OpenShift pull secret
//! (`{"auths": {"<registry>": {"auth": base64("user:pass")}}}`).
//!
//! Reading the file and its JSON happens outside this library; what an
//! `auths` entry yields is decided here.
use vstd::prelude::*;
use base64::Engine;
use vstd::utf8::{decode_utf8, valid_utf8};
use crate::text::{chars_of, find_first_in, split_once, string_of, strip_at, trim, utf8_string};

verus! {

/// One entry of a Docker config's `auths` map.
#[derive(Clone, Debug)]
pub struct AuthEntry {
    /// `base64("user:pass")`.
    pub auth: Option<String>,
    /// Username, used when `auth` yields nothing.
    pub username: Option<String>,
    /// Password, used when `auth` yields nothing.
    pub password: Option<String>,
}

/// The bytes that standard, padded base64 decodes `text` to, or `None` when
/// it is not valid base64.
pub uninterp spec fn base64_standard_decode(text: Seq<char>) -> Option<Seq<u8>>;

/// Decodes `text` with `base64::engine::general_purpose::STANDARD`
/// (`Engine::decode`). Trusted: the result is the named decoding of the text,
/// and `None` exactly when the crate reports a decode error.
#[verifier::external_body]
fn base64_decode(text: &str) -> (r: Option<Vec<u8>>)
    ensures
        match r {
            Some(b) => base64_standard_decode(text@) == Some(b@),
            None => base64_standard_decode(text@) is None,
        },
{
    base64::engine::general_purpose::STANDARD.decode(text).ok()
}

/// `user:pass` read from an `auth` value: the trimmed text base64-decoded,
/// read as UTF-8 and split at its first `:`.
pub open spec fn basic_credentials(auth: Seq<char>) -> Option<(Seq<char>, Seq<char>)> {
    match base64_standard_decode(trim(auth)) {
        Some(bytes) => if valid_utf8(bytes) {
            split_once(decode_utf8(bytes), ':')
        } else {
            None
        },
        None => None,
    }
}

/// The credentials an `auths` entry yields: those in `auth` when it decodes
/// to `user:pass`, else `username` and `password` when both are given.
pub open spec fn entry_credentials(e: AuthEntry) -> Option<(Seq<char>, Seq<char>)> {
    let from_auth = match e.auth {
        Some(a) => basic_credentials(a@),
        None => None,
    };
    match from_auth {
        Some(c) => Some(c),
        None => match (e.username, e.password) {
            (Some(u), Some(p)) => Some((u@, p@)),
            _ => None,
        },
    }
}

/// Decode an `auth` value to `(user, pass)`.
pub fn decode_basic(auth: &str) -> (r: Option<(String, String)>)
    ensures
        match r {
            Some((u, p)) => basic_credentials(auth@) == Some((u@, p@)),
            None => basic_credentials(auth@) is None,
        },
{
    let v = chars_of(auth);
    let (lo, hi) = strip_at(&v, 0, v.len(), false);
    assert(v@.subrange(0, v@.len() as int) == v@);
    let trimmed = string_of(&v, lo, hi);
    match base64_decode(trimmed.as_str()) {
        None => None,
        Some(bytes) => match utf8_string(bytes) {
            None => None,
            Some(s) => {
                let w = chars_of(s.as_str());
                assert(w@.subrange(0, w@.len() as int) == w@);
                match find_first_in(&w, 0, w.len(), ':') {
                    Some(i) => {
                        assert(w@.take(i as int) == w@.subrange(0, i as int));
                        assert(w@.skip(i + 1) == w@.subrange(i + 1, w@.len() as int));
                        Some((string_of(&w, 0, i), string_of(&w, i + 1, w.len())))
                    },
                    None => None,
                }
            },
        },
    }
}

/// The credentials an `auths` entry yields, if any.
pub fn credentials_of(entry: &AuthEntry) -> (r: Option<(String, String)>)
    ensures
        match r {
            Some((u, p)) => entry_credentials(*entry) == Some((u@, p@)),
            None => entry_credentials(*entry) is None,
        },
{
    if let Some(a) = &entry.auth {
        if let Some(c) = decode_basic(a.as_str()) {
            return Some(c);
        }
    }
    match (&entry.username, &entry.password) {
        (Some(u), Some(p)) => Some((u.clone(), p.clone())),
        _ => None,
    }
}

/// The registries of `auths` that yield credentials, each with its
/// `(user, pass)`, in the order given.
pub open spec fn credentials_table(auths: Seq<(String, AuthEntry)>) -> Seq<(Seq<char>, (Seq<char>, Seq<char>))>
    decreases auths.len(),
{
    if auths.len() == 0 {
        Seq::empty()
    } else {
        let rest = credentials_table(auths.drop_last());
        match entry_credentials(auths.last().1) {
            Some(c) => rest.push((auths.last().0@, c)),
            None => rest,
        }
    }
}

/// Credentials for each registry of a pull secret's `auths`: a registry
/// whose entry yields none is left out.
pub fn load_credentials(auths: &Vec<(String, AuthEntry)>) -> (out: Vec<(String, (String, String))>)
    ensures
        out@.len() == credentials_table(auths@).len(),
        forall|i: int|
            0 <= i < out@.len() ==> (#[trigger] out@[i]).0@ == credentials_table(auths@)[i].0
                && out@[i].1.0@ == credentials_table(auths@)[i].1.0 && out@[i].1.1@ == credentials_table(
                auths@,
            )[i].1.1,
{
    let mut out: Vec<(String, (String, String))> = Vec::new();
    let mut i: usize = 0;
    while i < auths.len()
        invariant
            i <= auths@.len(),
            out@.len() == credentials_table(auths@.take(i as int)).len(),
            forall|k: int|
                0 <= k < out@.len() ==> (#[trigger] out@[k]).0@ == credentials_table(auths@.take(i as int))[k].0
                    && out@[k].1.0@ == credentials_table(auths@.take(i as int))[k].1.0 && out@[k].1.1@
                    == credentials_table(auths@.take(i as int))[k].1.1,
        decreases auths@.len() - i,
    {
        let ghost before = auths@.take(i as int);
        assert(auths@.take(i + 1).drop_last() == before);
        let entry = &auths[i];
        match credentials_of(&entry.1) {
            Some(c) => {
                out.push((entry.0.clone(), c));
            },
            None => {},
        }
        i += 1;
    }
    assert(auths@.take(auths@.len() as int) == auths@);
    out
}

} // verus!
