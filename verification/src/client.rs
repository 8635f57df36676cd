//! Image references and the registry-auth challenge format.
//!
//! The HTTP transport itself lives outside this library; what is here is the
//! text handling the pull client relies on: parsing `registry/repo[:tag|@digest]`
//! references, building the Distribution v2 URLs and token scopes, and parsing
//! `WWW-Authenticate: Bearer` challenges.
use vstd::prelude::*;
use crate::digest::{digest_hex, digest_matches, digest_of, digest_valid, str_eq_ignore_ascii_case, Digest};
use crate::types::{platform_is, Descriptor, Index, Manifest};
use crate::text::{
    chars_of, find_first_in, find_last, find_last_in, split_by, split_once, starts_with, string_of, strip_at,
    trim, trim_quotes,
};

verus! {

/// A parsed image reference: `registry/repository:tag` or `…@sha256:…`.
#[derive(Clone, Debug)]
pub struct Reference {
    /// Registry host (and optional port), e.g. `quay.io`.
    pub registry: String,
    /// Repository path, e.g. `openshift-release-dev/ocp-release`.
    pub repository: String,
    /// Tag or `sha256:…` digest.
    pub reference: String,
}

/// Why a reference string was rejected.
#[derive(Clone, Debug)]
pub enum ReferenceError {
    /// The name part has no `/`, so there is no registry host in it.
    NoRegistryHost(String),
}

/// The tag used when a reference names none.
pub open spec fn latest_tag() -> Seq<char> {
    seq!['l', 'a', 't', 'e', 's', 't']
}

/// Splits a reference string into its name and its tag or digest.
///
/// `name@digest` splits at the first `@`. Otherwise a `:` after the last `/`
/// separates the tag (so a registry port such as `host:5000/repo` is not
/// taken for a tag); with no such `:` the tag is `latest`.
pub open spec fn split_name_reference(s: Seq<char>) -> (Seq<char>, Seq<char>) {
    match split_once(s, '@') {
        Some((n, d)) => (n, d),
        None => {
            let slash = match find_last(s, '/') {
                Some(i) => i + 1,
                None => 0,
            };
            match find_last(s.skip(slash), ':') {
                Some(colon) => (s.take(slash + colon), s.skip(slash + colon + 1)),
                None => (s, latest_tag()),
            }
        },
    }
}

/// `(registry, repository, reference)` of a reference string, or `None`
/// when the name has no `/` separating a registry host.
pub open spec fn parse_reference(s: Seq<char>) -> Option<(Seq<char>, Seq<char>, Seq<char>)> {
    let (name, reference) = split_name_reference(s);
    match split_once(name, '/') {
        Some((registry, repository)) => Some((registry, repository, reference)),
        None => None,
    }
}

impl Reference {
    /// Parse `registry/repository[:tag|@digest]` (tag defaults to `latest`).
    pub fn parse(s: &str) -> (r: Result<Reference, ReferenceError>)
        ensures
            match r {
                Ok(r) => parse_reference(s@) == Some((r.registry@, r.repository@, r.reference@)),
                Err(ReferenceError::NoRegistryHost(t)) => parse_reference(s@) is None && t@ == s@,
            },
    {
        let v = chars_of(s);
        let len = v.len();
        assert(v@.subrange(0, len as int) == v@);
        let name_end: usize;
        let reference: String;
        match find_first_in(&v, 0, len, '@') {
            Some(i) => {
                name_end = i;
                reference = string_of(&v, i + 1, len);
            },
            None => {
                let slash: usize = match find_last_in(&v, 0, len, '/') {
                    Some(i) => i + 1,
                    None => 0,
                };
                assert(v@.subrange(slash as int, len as int) == v@.skip(slash as int));
                match find_last_in(&v, slash, len, ':') {
                    Some(k) => {
                        name_end = k;
                        reference = string_of(&v, k + 1, len);
                        assert(v@.take(k as int) == v@.subrange(0, k as int));
                        assert(v@.skip(k + 1) == v@.subrange(k + 1, len as int));
                    },
                    None => {
                        name_end = len;
                        reference = String::from_str("latest");
                        proof {
                            reveal_strlit("latest");
                        }
                    },
                }
            },
        }
        assert(split_name_reference(s@).0 == v@.subrange(0, name_end as int));
        assert(split_name_reference(s@).1 == reference@);
        match find_first_in(&v, 0, name_end, '/') {
            Some(j) => {
                let registry = string_of(&v, 0, j);
                let repository = string_of(&v, j + 1, name_end);
                let ghost name = v@.subrange(0, name_end as int);
                assert(name.take(j as int) == registry@);
                assert(name.skip(j + 1) == repository@);
                Ok(Reference { registry, repository, reference })
            },
            None => Err(ReferenceError::NoRegistryHost(String::from_str(s))),
        }
    }

    /// The Distribution v2 manifest URL:
    /// `https://<registry>/v2/<repository>/manifests/<reference>`.
    pub fn manifest_url(&self) -> (u: String)
        ensures
            u@ == "https://"@ + self.registry@ + "/v2/"@ + self.repository@ + "/manifests/"@
                + self.reference@,
    {
        let mut u = String::from_str("https://");
        u.append(self.registry.as_str());
        u.append("/v2/");
        u.append(self.repository.as_str());
        u.append("/manifests/");
        u.append(self.reference.as_str());
        u
    }

    /// The Distribution v2 blob URL:
    /// `https://<registry>/v2/<repository>/blobs/<digest>`.
    pub fn blob_url(&self, digest: &Digest) -> (u: String)
        ensures
            u@ == "https://"@ + self.registry@ + "/v2/"@ + self.repository@ + "/blobs/"@ + digest.0@,
    {
        let mut u = String::from_str("https://");
        u.append(self.registry.as_str());
        u.append("/v2/");
        u.append(self.repository.as_str());
        u.append("/blobs/");
        u.append(digest.0.as_str());
        u
    }

    /// The token scope that grants pulling this repository:
    /// `repository:<repository>:pull`.
    pub fn pull_scope(&self) -> (s: String)
        ensures
            s@ == "repository:"@ + self.repository@ + ":pull"@,
    {
        let mut s = String::from_str("repository:");
        s.append(self.repository.as_str());
        s.append(":pull");
        s
    }

    /// The same repository addressed by `digest` instead of a tag, as used
    /// to follow an image index to one of its manifests.
    pub fn with_digest(&self, digest: &Digest) -> (r: Reference)
        ensures
            r.registry@ == self.registry@,
            r.repository@ == self.repository@,
            r.reference@ == digest.0@,
    {
        Reference {
            registry: self.registry.clone(),
            repository: self.repository.clone(),
            reference: digest.0.clone(),
        }
    }

    /// The display form `registry/repository:reference` recorded in
    /// provenance.
    pub fn image_label(&self) -> (s: String)
        ensures
            s@ == self.registry@ + "/"@ + self.repository@ + ":"@ + self.reference@,
    {
        let mut s = self.registry.clone();
        s.append("/");
        s.append(self.repository.as_str());
        s.append(":");
        s.append(self.reference.as_str());
        s
    }
}

} // verus!

verus! {

/// A `key=value` map read from a `Bearer` challenge. Entries keep their
/// order; a key given twice takes its last value.
#[derive(Clone, Debug)]
pub struct ChallengeParams {
    entries: Vec<(String, String)>,
}

/// The `(key, value)` views of a list of string pairs.
pub open spec fn pair_views(e: Seq<(String, String)>) -> Seq<(Seq<char>, Seq<char>)> {
    Seq::new(e.len(), |i: int| (e[i].0@, e[i].1@))
}

/// The map that inserting `pairs` in order into an empty map produces.
pub open spec fn pairs_to_map(pairs: Seq<(Seq<char>, Seq<char>)>) -> Map<Seq<char>, Seq<char>>
    decreases pairs.len(),
{
    if pairs.len() == 0 {
        Map::empty()
    } else {
        pairs_to_map(pairs.drop_last()).insert(pairs.last().0, pairs.last().1)
    }
}

/// The text after a `Bearer ` (or `bearer `) scheme prefix.
pub open spec fn bearer_rest(h: Seq<char>) -> Option<Seq<char>> {
    let upper = seq!['B', 'e', 'a', 'r', 'e', 'r', ' '];
    let lower = seq!['b', 'e', 'a', 'r', 'e', 'r', ' '];
    if starts_with(h, upper) {
        Some(h.skip(7))
    } else if starts_with(h, lower) {
        Some(h.skip(7))
    } else {
        None
    }
}

/// The `(key, value)` pairs that the comma-separated `parts` of a challenge
/// contribute: each part holding a `=` gives its trimmed key and its trimmed,
/// unquoted value; other parts give nothing.
pub open spec fn challenge_pairs(parts: Seq<Seq<char>>) -> Seq<(Seq<char>, Seq<char>)>
    decreases parts.len(),
{
    if parts.len() == 0 {
        Seq::empty()
    } else {
        let before = challenge_pairs(parts.drop_last());
        match split_once(parts.last(), '=') {
            Some((k, v)) => before.push((trim(k), trim_quotes(trim(v)))),
            None => before,
        }
    }
}

/// The parameters of a `Bearer key="value",…` challenge: `None` when the
/// header is not a `Bearer` challenge or carries no parameter.
pub open spec fn parse_challenge(h: Seq<char>) -> Option<Map<Seq<char>, Seq<char>>> {
    match bearer_rest(h) {
        Some(rest) => {
            let m = pairs_to_map(challenge_pairs(split_by(rest, ',')));
            if m == Map::<Seq<char>, Seq<char>>::empty() {
                None
            } else {
                Some(m)
            }
        },
        None => None,
    }
}

proof fn lemma_pairs_to_map_has(pairs: Seq<(Seq<char>, Seq<char>)>, k: Seq<char>)
    ensures
        pairs_to_map(pairs).contains_key(k) <==> exists|i: int| 0 <= i < pairs.len() && pairs[i].0 == k,
    decreases pairs.len(),
{
    if pairs.len() > 0 {
        let init = pairs.drop_last();
        lemma_pairs_to_map_has(init, k);
        if exists|i: int| 0 <= i < init.len() && init[i].0 == k {
            let i = choose|i: int| 0 <= i < init.len() && init[i].0 == k;
            assert(pairs[i].0 == k);
        }
        if exists|i: int| 0 <= i < pairs.len() && pairs[i].0 == k {
            let i = choose|i: int| 0 <= i < pairs.len() && pairs[i].0 == k;
            if i < pairs.len() - 1 {
                assert(init[i].0 == k);
            }
        }
    }
}

proof fn lemma_pairs_to_map_value(pairs: Seq<(Seq<char>, Seq<char>)>, i: int)
    requires
        0 <= i < pairs.len(),
        forall|j: int| i < j < pairs.len() ==> pairs[j].0 != pairs[i].0,
    ensures
        pairs_to_map(pairs)[pairs[i].0] == pairs[i].1,
    decreases pairs.len(),
{
    if i < pairs.len() - 1 {
        let init = pairs.drop_last();
        assert(init[i] == pairs[i]);
        assert forall|j: int| i < j < init.len() implies init[j].0 != init[i].0 by {
            assert(init[j] == pairs[j]);
        }
        lemma_pairs_to_map_value(init, i);
        assert(pairs[pairs.len() - 1].0 != pairs[i].0);
    }
}

impl ChallengeParams {
    /// The parameters as a map.
    pub closed spec fn view(&self) -> Map<Seq<char>, Seq<char>> {
        pairs_to_map(pair_views(self.entries@))
    }

    /// The value of parameter `key`.
    pub fn get(&self, key: &str) -> (r: Option<&String>)
        ensures
            match r {
                Some(v) => self.view().contains_key(key@) && self.view()[key@] == v@,
                None => !self.view().contains_key(key@),
            },
    {
        let k = String::from_str(key);
        let ghost pv = pair_views(self.entries@);
        proof {
            lemma_pairs_to_map_has(pv, key@);
        }
        let mut i = self.entries.len();
        while i > 0
            invariant
                i <= self.entries@.len(),
                k@ == key@,
                pv == pair_views(self.entries@),
                forall|j: int| i <= j < pv.len() ==> pv[j].0 != key@,
            decreases i,
        {
            if self.entries[i - 1].0 == k {
                assert(pv[i - 1] == (self.entries@[i - 1].0@, self.entries@[i - 1].1@));
                assert(pv[i - 1].0 == key@);
                proof {
                    lemma_pairs_to_map_has(pv, key@);
                    lemma_pairs_to_map_value(pv, i - 1);
                }
                return Some(&self.entries[i - 1].1);
            }
            i -= 1;
        }
        None
    }
}

proof fn lemma_split_step(v: Seq<char>, start: int, i: int, len: int)
    requires
        0 <= start <= i < len == v.len(),
        v[i] == ',',
        forall|j: int| start <= j < i ==> v[j] != ',',
    ensures
        split_by(v.subrange(start, len), ',') == seq![v.subrange(start, i)] + split_by(
            v.subrange(i + 1, len),
            ',',
        ),
{
    let sub = v.subrange(start, len);
    assert(sub[i - start] == ',');
    assert forall|j: int| 0 <= j < i - start implies sub[j] != ',' by {
        assert(sub[j] == v[start + j]);
    }
    crate::text::lemma_find_first_unique(sub, ',', i - start);
    assert(sub.take(i - start) == v.subrange(start, i));
    assert(sub.skip(i - start + 1) == v.subrange(i + 1, len));
}

proof fn lemma_split_last(v: Seq<char>, start: int, len: int)
    requires
        0 <= start <= len == v.len(),
        forall|j: int| start <= j < len ==> v[j] != ',',
    ensures
        split_by(v.subrange(start, len), ',') == seq![v.subrange(start, len)],
{
    let sub = v.subrange(start, len);
    assert forall|j: int| 0 <= j < sub.len() implies sub[j] != ',' by {
        assert(sub[j] == v[start + j]);
    }
    crate::text::lemma_find_first_none(sub, ',');
}

/// Reads one comma-separated part `v[ps..pe]` of a challenge into `out`.
fn read_challenge_part(v: &Vec<char>, ps: usize, pe: usize, out: &mut Vec<(String, String)>)
    requires
        ps <= pe <= v@.len(),
    ensures
        pair_views(final(out)@) == match split_once(v@.subrange(ps as int, pe as int), '=') {
            Some((k, val)) => pair_views(old(out)@).push((trim(k), trim_quotes(trim(val)))),
            None => pair_views(old(out)@),
        },
{
    match find_first_in(v, ps, pe, '=') {
        Some(e) => {
            let (ka, kb) = strip_at(v, ps, e, false);
            let (va0, vb0) = strip_at(v, e + 1, pe, false);
            let (va, vb) = strip_at(v, va0, vb0, true);
            let key = string_of(v, ka, kb);
            let value = string_of(v, va, vb);
            let ghost part = v@.subrange(ps as int, pe as int);
            assert(part.take(e - ps) == v@.subrange(ps as int, e as int));
            assert(part.skip(e - ps + 1) == v@.subrange(e + 1, pe as int));
            out.push((key, value));
            assert(pair_views(out@) == pair_views(old(out)@).push((key@, value@)));
        },
        None => {},
    }
}

/// Parse the parameters of a `Bearer key="value",key2="value2"` challenge.
pub fn parse_bearer_challenge(header: &str) -> (r: Option<ChallengeParams>)
    ensures
        match r {
            Some(p) => parse_challenge(header@) == Some(p.view()),
            None => parse_challenge(header@) is None,
        },
{
    let v = chars_of(header);
    let len = v.len();
    let upper = chars_of("Bearer ");
    let lower = chars_of("bearer ");
    proof {
        reveal_strlit("Bearer ");
        reveal_strlit("bearer ");
        assert(upper@ == seq!['B', 'e', 'a', 'r', 'e', 'r', ' ']);
        assert(lower@ == seq!['b', 'e', 'a', 'r', 'e', 'r', ' ']);
    }
    let rest_start: usize;
    if chars_starts_with(&v, &upper) {
        rest_start = 7;
    } else if chars_starts_with(&v, &lower) {
        rest_start = 7;
    } else {
        return None;
    }
    assert(bearer_rest(header@) == Some(v@.subrange(rest_start as int, len as int)));
    let mut out: Vec<(String, String)> = Vec::new();
    let ghost rest = v@.subrange(rest_start as int, len as int);
    let ghost mut done: Seq<Seq<char>> = Seq::empty();
    let mut start = rest_start;
    loop
        invariant_except_break
            split_by(rest, ',') == done + split_by(v@.subrange(start as int, len as int), ','),
        invariant
            rest_start <= start <= len == v@.len(),
            rest == v@.subrange(rest_start as int, len as int),
            pair_views(out@) == challenge_pairs(done),
        ensures
            pair_views(out@) == challenge_pairs(split_by(rest, ',')),
        decreases len - start,
    {
        match find_first_in(&v, start, len, ',') {
            Some(i) => {
                proof {
                    lemma_split_step(v@, start as int, i as int, len as int);
                }
                read_challenge_part(&v, start, i, &mut out);
                proof {
                    let part = v@.subrange(start as int, i as int);
                    assert((done.push(part)).drop_last() == done);
                    assert(split_by(rest, ',') == done.push(part) + split_by(
                        v@.subrange(i + 1, len as int),
                        ',',
                    ));
                    done = done.push(part);
                }
                start = i + 1;
            },
            None => {
                proof {
                    lemma_split_last(v@, start as int, len as int);
                }
                read_challenge_part(&v, start, len, &mut out);
                proof {
                    let part = v@.subrange(start as int, len as int);
                    assert((done.push(part)).drop_last() == done);
                    assert(split_by(rest, ',') == done.push(part));
                    done = done.push(part);
                }
                break;
            },
        }
    }
    let ghost pairs = challenge_pairs(split_by(rest, ','));
    if out.len() == 0 {
        assert(pairs_to_map(pairs) == Map::<Seq<char>, Seq<char>>::empty());
        None
    } else {
        proof {
            lemma_pairs_to_map_has(pairs, pairs.last().0);
            assert(pairs_to_map(pairs).contains_key(pairs.last().0));
        }
        Some(ChallengeParams { entries: out })
    }
}

/// Whether `v` begins with `p`.
fn chars_starts_with(v: &Vec<char>, p: &Vec<char>) -> (r: bool)
    ensures
        r == starts_with(v@, p@),
{
    if p.len() > v.len() {
        return false;
    }
    let mut i: usize = 0;
    while i < p.len()
        invariant
            p@.len() <= v@.len(),
            i <= p@.len(),
            forall|j: int| 0 <= j < i ==> v@[j] == p@[j],
        decreases p@.len() - i,
    {
        if v[i] != p[i] {
            assert(v@.take(p@.len() as int)[i as int] != p@[i as int]);
            return false;
        }
        i += 1;
    }
    assert(v@.take(p@.len() as int) == p@);
    true
}

} // verus!

verus! {

/// What a token endpoint asks for, read from a `Bearer` challenge.
#[derive(Clone, Debug)]
pub struct TokenRequest {
    /// URL of the token endpoint.
    pub realm: String,
    /// `service` query parameter, when the challenge names one.
    pub service: Option<String>,
    /// `scope` query parameter: the challenge's, else the caller's.
    pub scope: String,
}

/// Why a challenge could not be turned into a token request.
#[derive(Clone, Debug)]
pub enum ChallengeError {
    /// Not a `Bearer` challenge, or one without parameters.
    Unsupported(String),
    /// The challenge names no `realm`.
    MissingRealm,
}

/// `realm`.
pub open spec fn realm_key() -> Seq<char> {
    seq!['r', 'e', 'a', 'l', 'm']
}

/// `service`.
pub open spec fn service_key() -> Seq<char> {
    seq!['s', 'e', 'r', 'v', 'i', 'c', 'e']
}

/// `scope`.
pub open spec fn scope_key() -> Seq<char> {
    seq!['s', 'c', 'o', 'p', 'e']
}

/// Read the token request a `Bearer` challenge asks for; `fallback_scope`
/// is used when the challenge names no scope.
pub fn token_request(challenge: &str, fallback_scope: &str) -> (r: Result<TokenRequest, ChallengeError>)
    ensures
        match parse_challenge(challenge@) {
            None => r matches Err(ChallengeError::Unsupported(c)) && c@ == challenge@,
            Some(m) => if !m.contains_key(realm_key()) {
                r matches Err(ChallengeError::MissingRealm)
            } else {
                &&& r is Ok
                &&& r->Ok_0.realm@ == m[realm_key()]
                &&& (if m.contains_key(service_key()) {
                    r->Ok_0.service matches Some(s) && s@ == m[service_key()]
                } else {
                    r->Ok_0.service is None
                })
                &&& r->Ok_0.scope@ == (if m.contains_key(scope_key()) {
                    m[scope_key()]
                } else {
                    fallback_scope@
                })
            },
        },
{
    let params = match parse_bearer_challenge(challenge) {
        Some(p) => p,
        None => return Err(ChallengeError::Unsupported(String::from_str(challenge))),
    };
    proof {
        reveal_strlit("realm");
        reveal_strlit("service");
        reveal_strlit("scope");
        assert("realm"@ == realm_key());
        assert("service"@ == service_key());
        assert("scope"@ == scope_key());
    }
    let realm = match params.get("realm") {
        Some(r) => r.clone(),
        None => return Err(ChallengeError::MissingRealm),
    };
    let service = match params.get("service") {
        Some(s) => Some(s.clone()),
        None => None,
    };
    let scope = match params.get("scope") {
        Some(s) => s.clone(),
        None => String::from_str(fallback_scope),
    };
    Ok(TokenRequest { realm, service, scope })
}

/// How a field of a token response reads.
#[derive(Clone, Debug)]
pub enum TokenField {
    /// The field is absent.
    Absent,
    /// The field holds a string.
    Text(String),
    /// The field holds something other than a string.
    NotText,
}

/// The bearer token in a token response: the `token` field when present,
/// else `access_token`; `None` when the chosen field is not a string or
/// neither is present.
pub fn choose_token(token: TokenField, access_token: TokenField) -> (r: Option<String>)
    ensures
        match token {
            TokenField::Text(t) => r == Some(t),
            TokenField::NotText => r is None,
            TokenField::Absent => match access_token {
                TokenField::Text(t) => r == Some(t),
                _ => r is None,
            },
        },
{
    match token {
        TokenField::Text(t) => Some(t),
        TokenField::NotText => None,
        TokenField::Absent => match access_token {
            TokenField::Text(t) => Some(t),
            _ => None,
        },
    }
}

/// Whether a response calls for a token exchange and one retry: the status is
/// 401 Unauthorized and the response carries a `WWW-Authenticate` challenge.
pub fn needs_token_exchange(status: u16, has_challenge: bool) -> (r: bool)
    ensures
        r == (status == 401 && has_challenge),
{
    status == 401 && has_challenge
}

} // verus!

verus! {

/// A fetched manifest body plus its content type and computed digest.
#[derive(Clone, Debug)]
pub struct RawManifest {
    /// Raw JSON bytes (the digest is computed over these exact bytes).
    pub body: Vec<u8>,
    /// `Content-Type` returned by the registry.
    pub content_type: String,
    /// sha256 of `body`.
    pub digest: Digest,
}

impl RawManifest {
    /// A fetched manifest: the body as received, the content type the
    /// registry gave, and the sha256 digest of exactly those bytes.
    pub fn new(body: Vec<u8>, content_type: String) -> (m: RawManifest)
        ensures
            m.body@ == body@,
            m.content_type@ == content_type@,
            m.digest.0@ == digest_of(body@),
            digest_valid(m.digest.0@),
    {
        let digest = Digest::from_bytes(body.as_slice());
        RawManifest { body, content_type, digest }
    }
}

/// Check a fetched manifest against the reference it was fetched by: when
/// the reference is a sha256 digest, the body must hash to it (hex compared
/// ignoring ASCII case), else the registry served other content. A tag
/// reference names no content to check.
pub fn verify_fetched(r: &Reference, raw: &RawManifest) -> (res: Result<(), ResolveError>)
    ensures
        if digest_valid(r.reference@) && !digest_matches(r.reference@, raw.body@) {
            res matches Err(ResolveError::DigestMismatch { requested, actual }) && requested@ == r.reference@
                && actual@ == digest_of(raw.body@)
        } else {
            res is Ok
        },
{
    let requested = Digest(r.reference.clone());
    match requested.validate() {
        Err(_) => Ok(()),
        Ok(()) => {
            let actual = Digest::from_bytes(raw.body.as_slice());
            proof {
                crate::digest::lemma_digest_of_parts(raw.body@);
            }
            if str_eq_ignore_ascii_case(actual.hex(), requested.hex()) {
                Ok(())
            } else {
                Err(ResolveError::DigestMismatch { requested: requested.0, actual: actual.0 })
            }
        },
    }
}

/// Either a single-platform manifest or a multi-arch index.
#[derive(Clone, Debug)]
pub enum ManifestOrIndex {
    /// A concrete image manifest (boxed — it is much larger than `Index`).
    Manifest(Box<Manifest>),
    /// A multi-arch image index / manifest list.
    Index(Index),
}

/// Why a reference could not be resolved to an image manifest for a platform.
#[derive(Clone, Debug)]
pub enum ResolveError {
    /// The index has no manifest for the platform.
    NoPlatform,
    /// The index entry for the platform is itself an index.
    NestedIndex,
    /// A manifest fetched by digest does not hash to that digest.
    DigestMismatch { requested: String, actual: String },
}

/// Where resolving a reference stands after its first fetch.
#[derive(Clone, Debug)]
pub enum Resolution {
    /// The reference named an image manifest: here it is, with the digest it
    /// was fetched by.
    Image(Manifest, Digest),
    /// The reference named an index: the platform's manifest is fetched next
    /// through this reference, and is known by this digest.
    ByDigest(Reference, Digest),
}

/// Whether entry `i` of `ms` is the first one for platform `arch`/`os`.
pub open spec fn first_for_platform(ms: Seq<Descriptor>, i: int, arch: Seq<char>, os: Seq<char>) -> bool {
    &&& 0 <= i < ms.len()
    &&& platform_is(ms[i], arch, os)
    &&& forall|j: int| 0 <= j < i ==> !platform_is(#[trigger] ms[j], arch, os)
}

/// Whether no entry of `ms` is for platform `arch`/`os`.
pub open spec fn no_entry_for_platform(ms: Seq<Descriptor>, arch: Seq<char>, os: Seq<char>) -> bool {
    forall|j: int| 0 <= j < ms.len() ==> !platform_is(#[trigger] ms[j], arch, os)
}

/// `res` is the image manifest `m`, known by `digest`.
pub open spec fn resolved_image(res: Result<Resolution, ResolveError>, m: Manifest, digest: Digest) -> bool {
    match res {
        Ok(Resolution::Image(m2, d)) => m2 == m && d == digest,
        _ => false,
    }
}

/// `res` sends the resolution of `r` on to the first entry of `ms` for
/// platform `arch`/`os`: fetched from `r`'s repository by that entry's
/// digest, and known by it.
pub open spec fn resolved_by_digest(
    res: Result<Resolution, ResolveError>,
    r: Reference,
    ms: Seq<Descriptor>,
    arch: Seq<char>,
    os: Seq<char>,
) -> bool {
    match res {
        Ok(Resolution::ByDigest(r2, d)) => exists|i: int|
            #![trigger ms[i]]
            first_for_platform(ms, i, arch, os) && d.0@ == ms[i].digest.0@ && r2.registry@ == r.registry@
                && r2.repository@ == r.repository@ && r2.reference@ == ms[i].digest.0@,
        _ => false,
    }
}

/// First step of resolving `r` for `arch`/`os`, given what fetching `r`
/// returned and the digest the body hashed to: a manifest is the image
/// itself; an index names the platform's entry, whose manifest is fetched
/// next by digest from the same repository.
pub fn resolve_fetched(
    r: &Reference,
    fetched: ManifestOrIndex,
    fetched_digest: Digest,
    arch: &str,
    os: &str,
) -> (res: Result<Resolution, ResolveError>)
    ensures
        match fetched {
            ManifestOrIndex::Manifest(m) => resolved_image(res, *m, fetched_digest),
            ManifestOrIndex::Index(idx) => if no_entry_for_platform(idx.manifests@, arch@, os@) {
                res == Err::<Resolution, ResolveError>(ResolveError::NoPlatform)
            } else {
                resolved_by_digest(res, *r, idx.manifests@, arch@, os@)
            },
        },
{
    match fetched {
        ManifestOrIndex::Manifest(m) => Ok(Resolution::Image(*m, fetched_digest)),
        ManifestOrIndex::Index(idx) => {
            match idx.select(arch, os) {
                None => Err(ResolveError::NoPlatform),
                Some(desc) => {
                    let by = r.with_digest(&desc.digest);
                    let d = Digest(desc.digest.0.clone());
                    Ok(Resolution::ByDigest(by, d))
                },
            }
        },
    }
}

/// Second step, after fetching the platform's entry by `digest`: it must be
/// an image manifest, which is returned with that digest; a nested index is
/// refused.
pub fn resolve_by_digest(fetched: ManifestOrIndex, digest: Digest) -> (res: Result<(Manifest, Digest), ResolveError>)
    ensures
        match fetched {
            ManifestOrIndex::Manifest(m) => res matches Ok((m2, d)) && m2 == *m && d == digest,
            ManifestOrIndex::Index(_) => res matches Err(ResolveError::NestedIndex),
        },
{
    match fetched {
        ManifestOrIndex::Manifest(m) => Ok((*m, digest)),
        ManifestOrIndex::Index(_) => Err(ResolveError::NestedIndex),
    }
}

} // verus!

verus! {

/// `a`, then `c`, then `b`.
pub open spec fn joined(a: Seq<char>, c: char, b: Seq<char>) -> Seq<char> {
    a + seq![c] + b
}

/// In `a + c + b` with no `c` in `a`, the first `c` is the one joining them.
proof fn lemma_first_at_join(a: Seq<char>, c: char, b: Seq<char>)
    requires
        !a.contains(c),
    ensures
        split_once(joined(a, c, b), c) == Some((a, b)),
{
    let s = joined(a, c, b);
    assert forall|j: int| 0 <= j < a.len() implies s[j] != c by {
        assert(s[j] == a[j]);
        if a[j] == c {
            assert(a.contains(c));
        }
    }
    crate::text::lemma_find_first_unique(s, c, a.len() as int);
    assert(s.take(a.len() as int) == a);
    assert(s.skip(a.len() as int + 1) == b);
}

/// In `a + c + b` with no `c` in `b`, the last `c` is the one joining them.
proof fn lemma_last_at_join(a: Seq<char>, c: char, b: Seq<char>)
    requires
        !b.contains(c),
    ensures
        find_last(joined(a, c, b), c) == Some(a.len() as int),
{
    let s = joined(a, c, b);
    assert forall|j: int| a.len() < j < s.len() implies s[j] != c by {
        assert(s[j] == b[j - a.len() - 1]);
        if b[j - a.len() - 1] == c {
            assert(b.contains(c));
        }
    }
    crate::text::lemma_find_last_unique(s, c, a.len() as int);
}

/// Whether `x` is nowhere in `s`.
proof fn lemma_absent_in_join(a: Seq<char>, c: char, b: Seq<char>, x: char)
    requires
        !a.contains(x),
        !b.contains(x),
        c != x,
    ensures
        !joined(a, c, b).contains(x),
{
    let s = joined(a, c, b);
    if s.contains(x) {
        let j = choose|j: int| 0 <= j < s.len() && s[j] == x;
        if j < a.len() {
            assert(a[j] == x);
            assert(a.contains(x));
        } else if j > a.len() {
            assert(b[j - a.len() - 1] == x);
            assert(b.contains(x));
        }
    }
}

/// A reference written `registry/repository:tag` — the form
/// [`Reference::image_label`] writes — parses back to its parts, when the
/// registry holds no `/` or `@`, the repository no `@`, and the tag none of
/// `/`, `@` and `:`.
pub proof fn lemma_parse_tagged(registry: Seq<char>, repository: Seq<char>, tag: Seq<char>)
    requires
        !registry.contains('/'),
        !registry.contains('@'),
        !repository.contains('@'),
        !tag.contains('/'),
        !tag.contains('@'),
        !tag.contains(':'),
    ensures
        parse_reference(joined(joined(registry, '/', repository), ':', tag)) == Some((registry, repository, tag)),
{
    let name = joined(registry, '/', repository);
    let s = joined(name, ':', tag);
    lemma_absent_in_join(registry, '/', repository, '@');
    lemma_absent_in_join(name, ':', tag, '@');
    assert forall|j: int| 0 <= j < s.len() implies s[j] != '@' by {
        if s[j] == '@' {
            assert(s.contains('@'));
        }
    }
    crate::text::lemma_find_first_none(s, '@');
    crate::text::lemma_find_last_facts(s, '/');
    let n = name.len() as int;
    assert(s[registry.len() as int] == '/');
    let i = find_last(s, '/').unwrap();
    assert(i < n) by {
        if i >= n {
            if i == n {
                assert(s[n] == ':');
            } else {
                assert(tag[i - n - 1] == '/');
                assert(tag.contains('/'));
            }
        }
    }
    let slash = i + 1;
    let rest = s.skip(slash);
    assert(rest == joined(name.skip(slash), ':', tag));
    lemma_last_at_join(name.skip(slash), ':', tag);
    assert(s.take(n) == name);
    assert(s.skip(n + 1) == tag);
    assert(split_name_reference(s) == (name, tag));
    lemma_first_at_join(registry, '/', repository);
}

/// A reference written `registry/repository`, with no tag, parses to its
/// parts and the tag `latest` — also when the registry names a port
/// (`host:5000`) — when the registry holds no `/` or `@` and the repository
/// no `@` or `:`.
pub proof fn lemma_parse_untagged(registry: Seq<char>, repository: Seq<char>)
    requires
        !registry.contains('/'),
        !registry.contains('@'),
        !repository.contains('@'),
        !repository.contains(':'),
    ensures
        parse_reference(joined(registry, '/', repository)) == Some((registry, repository, latest_tag())),
{
    let s = joined(registry, '/', repository);
    lemma_absent_in_join(registry, '/', repository, '@');
    assert forall|j: int| 0 <= j < s.len() implies s[j] != '@' by {
        if s[j] == '@' {
            assert(s.contains('@'));
        }
    }
    crate::text::lemma_find_first_none(s, '@');
    crate::text::lemma_find_last_facts(s, '/');
    let r = registry.len() as int;
    assert(s[r] == '/');
    let i = find_last(s, '/').unwrap();
    assert(i >= r);
    let rest = s.skip(i + 1);
    assert forall|j: int| 0 <= j < rest.len() implies rest[j] != ':' by {
        assert(rest[j] == repository[i + 1 + j - r - 1]);
        if repository[i + j - r] == ':' {
            assert(repository.contains(':'));
        }
    }
    crate::text::lemma_find_last_none(rest, ':');
    assert(split_name_reference(s) == (s, latest_tag()));
    lemma_first_at_join(registry, '/', repository);
}

/// A reference written `registry/repository@digest` parses back to its
/// parts, when the registry holds no `/` or `@` and the repository no `@`.
pub proof fn lemma_parse_by_digest(registry: Seq<char>, repository: Seq<char>, digest: Seq<char>)
    requires
        !registry.contains('/'),
        !registry.contains('@'),
        !repository.contains('@'),
    ensures
        parse_reference(joined(joined(registry, '/', repository), '@', digest)) == Some(
            (registry, repository, digest),
        ),
{
    let name = joined(registry, '/', repository);
    lemma_absent_in_join(registry, '/', repository, '@');
    lemma_first_at_join(name, '@', digest);
    lemma_first_at_join(registry, '/', repository);
}

} // verus!
