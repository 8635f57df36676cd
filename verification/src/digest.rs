//! Content-addressable digests (`sha256:<hex>`) and streaming verification.
use vstd::prelude::*;
use vstd::string::StringSliceAdditionalSpecFns;
use vstd::utf8::{encode_utf8, is_ascii_chars, is_char_boundary};
use crate::text::{ascii_lower, chars_of, eq_ignore_ascii_case, find_first_in, split_once};

verus! {

// ── SHA-256 (outside crate `sha2`) ───────────────────────────────────────

/// A running SHA-256 computation. `sha2`'s hasher type cannot be declared to
/// the verifier (its bounds name traits that cannot be specified), so it is
/// kept opaque behind this struct; [`sha256_absorbed`] names what it has been
/// fed.
#[verifier::external_body]
pub struct Sha256State {
    inner: sha2::Sha256,
}

/// The bytes fed to a [`Sha256State`] so far.
pub uninterp spec fn sha256_absorbed(h: Sha256State) -> Seq<u8>;

/// The SHA-256 digest of `data` (what `sha2::Sha256` finalizes to).
pub uninterp spec fn sha256(data: Seq<u8>) -> Seq<u8>;

impl Sha256State {
    /// `sha2::Sha256::new`: a hasher that has absorbed nothing.
    #[verifier::external_body]
    pub(crate) fn new() -> (h: Sha256State)
        ensures
            sha256_absorbed(h) == Seq::<u8>::empty(),
    {
        Sha256State { inner: <sha2::Sha256 as sha2::Digest>::new() }
    }

    /// `sha2::Digest::update`: absorbs `data` after what came before.
    #[verifier::external_body]
    pub(crate) fn update(&mut self, data: &[u8])
        ensures
            sha256_absorbed(*final(self)) == sha256_absorbed(*old(self)) + data@,
    {
        sha2::Digest::update(&mut self.inner, data)
    }

    /// `sha2::Digest::finalize`: the 32-byte digest of everything absorbed.
    #[verifier::external_body]
    pub(crate) fn finalize(self) -> (out: Vec<u8>)
        ensures
            out@ == sha256(sha256_absorbed(self)),
            out@.len() == 32,
    {
        sha2::Digest::finalize(self.inner).to_vec()
    }
}

// ── Hex encoding (outside crate `hex`) ───────────────────────────────────

/// The lowercase hex digit for `n < 16`.
pub open spec fn hex_digit(n: int) -> char {
    if n < 10 {
        (('0' as int) + n) as char
    } else {
        (('a' as int) + n - 10) as char
    }
}

/// Lowercase hex encoding: two digits per byte, high nibble first.
pub open spec fn hex_lower(bytes: Seq<u8>) -> Seq<char>
    decreases bytes.len(),
{
    if bytes.len() == 0 {
        Seq::empty()
    } else {
        seq![hex_digit(bytes[0] as int / 16), hex_digit(bytes[0] as int % 16)] + hex_lower(
            bytes.drop_first(),
        )
    }
}

proof fn lemma_hex_lower_push(bytes: Seq<u8>, b: u8)
    ensures
        hex_lower(bytes.push(b)) == hex_lower(bytes) + seq![hex_digit(b as int / 16), hex_digit(b as int % 16)],
    decreases bytes.len(),
{
    let tail = seq![hex_digit(b as int / 16), hex_digit(b as int % 16)];
    if bytes.len() > 0 {
        lemma_hex_lower_push(bytes.drop_first(), b);
        assert(bytes.push(b).drop_first() == bytes.drop_first().push(b));
        let head = seq![hex_digit(bytes[0] as int / 16), hex_digit(bytes[0] as int % 16)];
        assert(bytes.push(b)[0] == bytes[0]);
        assert(hex_lower(bytes.push(b)) == head + hex_lower(bytes.drop_first().push(b)));
        assert(hex_lower(bytes) == head + hex_lower(bytes.drop_first()));
        assert(head + (hex_lower(bytes.drop_first()) + tail) == (head + hex_lower(bytes.drop_first())) + tail);
    } else {
        assert(bytes.push(b).drop_first() == Seq::<u8>::empty());
        assert(hex_lower(Seq::<u8>::empty()) == Seq::<char>::empty());
        assert(bytes.push(b)[0] == b);
        assert(hex_lower(bytes.push(b)) == tail + hex_lower(Seq::<u8>::empty()));
        assert(bytes == Seq::<u8>::empty());
        assert(tail + Seq::<char>::empty() == tail);
        assert(Seq::<char>::empty() + tail == tail);
    }
}

/// The lowercase hex digit of a nibble.
fn nibble_char(n: u8) -> (c: char)
    requires
        n < 16,
    ensures
        c == hex_digit(n as int),
{
    if n < 10 {
        (48u8 + n) as char
    } else {
        (87u8 + n) as char
    }
}

/// The lowercase hex text of `bytes` (what `hex::encode` gives).
pub(crate) fn hex_encode(bytes: &[u8]) -> (s: String)
    ensures
        s@ == hex_lower(bytes@),
{
    let mut s = String::new();
    let mut i: usize = 0;
    while i < bytes.len()
        invariant
            i <= bytes@.len(),
            s@ == hex_lower(bytes@.take(i as int)),
        decreases bytes@.len() - i,
    {
        let b = bytes[i];
        proof {
            lemma_hex_lower_push(bytes@.take(i as int), b);
            assert(bytes@.take(i + 1) == bytes@.take(i as int).push(b));
        }
        crate::text::push_char(&mut s, nibble_char(b / 16));
        crate::text::push_char(&mut s, nibble_char(b % 16));
        i += 1;
    }
    assert(bytes@.take(bytes@.len() as int) == bytes@);
    s
}

/// Hex text has two ASCII hexadecimal digits per byte and never a `:`.
pub proof fn lemma_hex_lower(bytes: Seq<u8>)
    ensures
        hex_lower(bytes).len() == 2 * bytes.len(),
        is_ascii_chars(hex_lower(bytes)),
        forall|i: int| 0 <= i < hex_lower(bytes).len() ==> #[trigger] hex_lower(bytes)[i] != ':',
        all_hex(hex_lower(bytes)),
    decreases bytes.len(),
{
    if bytes.len() > 0 {
        lemma_hex_lower(bytes.drop_first());
        let h = hex_lower(bytes);
        let rest = hex_lower(bytes.drop_first());
        let b = bytes[0] as int;
        assert(h == seq![hex_digit(b / 16), hex_digit(b % 16)] + rest);
        assert forall|i: int| 0 <= i < h.len() implies '\0' <= #[trigger] h[i] <= '\u{7f}' && h[i] != ':' && is_hex_char(h[i]) by {
            if i >= 2 {
                assert(h[i] == rest[i - 2]);
            }
        }
    }
}

// ── Digests ──────────────────────────────────────────────────────────────

/// A content-addressable digest, e.g. `sha256:abc123…`.
#[derive(Clone, Debug)]
pub struct Digest(pub String);

impl PartialEq for Digest {
    fn eq(&self, other: &Digest) -> (r: bool) {
        self.0 == other.0
    }
}

impl vstd::std_specs::cmp::PartialEqSpecImpl for Digest {
    open spec fn obeys_eq_spec() -> bool {
        true
    }

    open spec fn eq_spec(&self, other: &Digest) -> bool {
        self.0@ == other.0@
    }
}

impl Eq for Digest {
}

/// Errors from digest parsing/validation.
#[derive(Clone, Debug)]
pub enum DigestError {
    /// Not in `algorithm:hex` form.
    Format(String),
    /// Algorithm other than sha256.
    Algorithm(String),
    /// Hex length (in bytes) is not 64.
    Length(usize),
}

/// The algorithm part of a digest string: the text before its first `:`,
/// or empty when there is none.
pub open spec fn digest_algorithm(s: Seq<char>) -> Seq<char> {
    match split_once(s, ':') {
        Some((a, _)) => a,
        None => Seq::empty(),
    }
}

/// The hex part of a digest string: the text after its first `:`, or empty
/// when there is none.
pub open spec fn digest_hex(s: Seq<char>) -> Seq<char> {
    match split_once(s, ':') {
        Some((_, h)) => h,
        None => Seq::empty(),
    }
}

/// `sha256`.
pub open spec fn sha256_name() -> Seq<char> {
    seq!['s', 'h', 'a', '2', '5', '6']
}

/// An ASCII hexadecimal digit, in either case.
pub open spec fn is_hex_char(c: char) -> bool {
    ||| ('0' <= c && c <= '9')
    ||| ('a' <= c && c <= 'f')
    ||| ('A' <= c && c <= 'F')
}

/// Every character is a hexadecimal digit.
pub open spec fn all_hex(s: Seq<char>) -> bool {
    forall|i: int| 0 <= i < s.len() ==> is_hex_char(#[trigger] s[i])
}

/// A well-formed sha256 digest: algorithm `sha256` and a hex part of 64
/// hexadecimal digits.
pub open spec fn digest_valid(s: Seq<char>) -> bool {
    &&& digest_algorithm(s) == sha256_name()
    &&& encode_utf8(digest_hex(s)).len() == 64
    &&& all_hex(digest_hex(s))
}

/// Not in `algorithm:hex` form: no algorithm, no hex part, or a sha256 hex
/// part of the right length holding something other than hex digits.
pub open spec fn malformed(s: Seq<char>) -> bool {
    ||| digest_algorithm(s).len() == 0
    ||| digest_hex(s).len() == 0
    ||| (digest_algorithm(s) == sha256_name() && encode_utf8(digest_hex(s)).len() == 64 && !all_hex(
        digest_hex(s),
    ))
}

/// The digest string of `data`: `sha256:` followed by the lowercase hex of
/// its SHA-256.
pub open spec fn digest_of(data: Seq<u8>) -> Seq<char> {
    sha256_name().push(':') + hex_lower(sha256(data))
}

/// Whether content `fed` matches the expected digest string: the hex of
/// its SHA-256 equals the expected hex part, ignoring ASCII case.
pub open spec fn digest_matches(expected: Seq<char>, fed: Seq<u8>) -> bool {
    eq_ignore_ascii_case(hex_lower(sha256(fed)), digest_hex(expected))
}

/// Where the first `:` of `s` stands, if anywhere.
fn colon_index(s: &str) -> (r: Option<usize>)
    ensures
        match r {
            Some(i) => i < s@.len() && split_once(s@, ':') == Some((s@.take(i as int), s@.skip(i + 1))),
            None => split_once(s@, ':') is None,
        },
{
    let v = chars_of(s);
    assert(v@.subrange(0, v@.len() as int) == v@);
    find_first_in(&v, 0, v.len(), ':')
}

impl Digest {
    /// Algorithm part (e.g. `sha256`), or `""` if malformed.
    pub fn algorithm(&self) -> (a: &str)
        ensures
            a@ == digest_algorithm(self.0@),
    {
        let s = self.0.as_str();
        match colon_index(s) {
            Some(i) => s.substring_char(0, i),
            None => {
                proof {
                    reveal_strlit("");
                }
                ""
            },
        }
    }

    /// Hex part, or `""` if malformed.
    pub fn hex(&self) -> (h: &str)
        ensures
            h@ == digest_hex(self.0@),
    {
        let s = self.0.as_str();
        let n = s.unicode_len();
        match colon_index(s) {
            Some(i) => s.substring_char(i + 1, n),
            None => {
                proof {
                    reveal_strlit("");
                }
                ""
            },
        }
    }

    /// First 12 hex bytes, for logging.
    pub fn short_hex(&self) -> (h: &str)
        requires
            is_char_boundary(
                encode_utf8(digest_hex(self.0@)),
                if encode_utf8(digest_hex(self.0@)).len() < 12 {
                    encode_utf8(digest_hex(self.0@)).len() as int
                } else {
                    12
                },
            ),
        ensures
            encode_utf8(h@) == encode_utf8(digest_hex(self.0@)).take(
                if encode_utf8(digest_hex(self.0@)).len() < 12 {
                    encode_utf8(digest_hex(self.0@)).len() as int
                } else {
                    12
                },
            ),
    {
        let h = self.hex();
        let len = h.as_bytes().len();
        let n = if len < 12 {
            len
        } else {
            12
        };
        assert(h.spec_bytes() == encode_utf8(digest_hex(self.0@)));
        let (head, _) = h.split_at(n);
        proof {
            vstd::utf8::encode_utf8_decode_utf8(head@);
        }
        head
    }

    /// Check the digest is a well-formed sha256.
    pub fn validate(&self) -> (r: Result<(), DigestError>)
        ensures
            r is Ok <==> digest_valid(self.0@),
            r matches Err(DigestError::Format(t)) ==> t@ == self.0@ && malformed(self.0@),
            r matches Err(DigestError::Algorithm(a)) ==> a@ == digest_algorithm(self.0@) && digest_algorithm(
                self.0@,
            ).len() != 0 && digest_hex(self.0@).len() != 0 && digest_algorithm(self.0@) != sha256_name(),
            r matches Err(DigestError::Length(n)) ==> n == encode_utf8(digest_hex(self.0@)).len()
                && digest_hex(self.0@).len() != 0 && digest_algorithm(self.0@) == sha256_name()
                && n != 64,
    {
        let alg = self.algorithm();
        let hex = self.hex();
        if alg.unicode_len() == 0 || hex.unicode_len() == 0 {
            return Err(DigestError::Format(self.0.clone()));
        }
        let alg_s = String::from_str(alg);
        let want = String::from_str("sha256");
        proof {
            reveal_strlit("sha256");
            assert(want@ == sha256_name());
        }
        if alg_s != want {
            return Err(DigestError::Algorithm(alg_s));
        }
        let hex_bytes = hex.as_bytes().len();
        if hex_bytes != 64 {
            return Err(DigestError::Length(hex_bytes));
        }
        assert(hex_bytes == encode_utf8(digest_hex(self.0@)).len());
        let v = chars_of(hex);
        let mut i: usize = 0;
        while i < v.len()
            invariant
                v@ == hex@,
                hex@ == digest_hex(self.0@),
                digest_algorithm(self.0@) == sha256_name(),
                encode_utf8(digest_hex(self.0@)).len() == 64,
                i <= v@.len(),
                forall|j: int| 0 <= j < i ==> is_hex_char(#[trigger] v@[j]),
            decreases v@.len() - i,
        {
            let c = v[i];
            if !(('0' <= c && c <= '9') || ('a' <= c && c <= 'f') || ('A' <= c && c <= 'F')) {
                assert(!is_hex_char(v@[i as int]));
                return Err(DigestError::Format(self.0.clone()));
            }
            i += 1;
        }
        Ok(())
    }

    /// Compute the sha256 digest of a byte slice.
    pub fn from_bytes(data: &[u8]) -> (d: Digest)
        ensures
            d.0@ == digest_of(data@),
            digest_valid(d.0@),
    {
        let mut h = ContentHasher::new();
        h.update(data);
        h.digest()
    }

    /// Parse and validate a digest string.
    pub fn parse(s: &str) -> (r: Result<Digest, DigestError>)
        ensures
            r is Ok <==> digest_valid(s@),
            r matches Ok(d) ==> d.0@ == s@,
            r matches Err(DigestError::Format(t)) ==> t@ == s@ && malformed(s@),
            r matches Err(DigestError::Algorithm(a)) ==> a@ == digest_algorithm(s@) && digest_algorithm(
                s@,
            ).len() != 0 && digest_hex(s@).len() != 0 && digest_algorithm(s@) != sha256_name(),
            r matches Err(DigestError::Length(n)) ==> n == encode_utf8(digest_hex(s@)).len()
                && digest_hex(s@).len() != 0 && digest_algorithm(s@) == sha256_name() && n != 64,
    {
        let d = Digest(String::from_str(s));
        match d.validate() {
            Ok(()) => Ok(d),
            Err(e) => Err(e),
        }
    }
}

/// The algorithm and hex parts of [`digest_of`]: `sha256` and the lowercase
/// hex of the content's SHA-256 (64 bytes of it for a 32-byte digest).
pub proof fn lemma_digest_of_parts(data: Seq<u8>)
    ensures
        digest_algorithm(digest_of(data)) == sha256_name(),
        digest_hex(digest_of(data)) == hex_lower(sha256(data)),
        split_once(digest_of(data), ':') == Some((sha256_name(), hex_lower(sha256(data)))),
        sha256(data).len() == 32 ==> digest_valid(digest_of(data)),
{
    let h = hex_lower(sha256(data));
    let s = digest_of(data);
    lemma_hex_lower(sha256(data));
    assert(s[6] == ':');
    assert forall|j: int| 0 <= j < 6 implies s[j] != ':' by {}
    crate::text::lemma_find_first_unique(s, ':', 6);
    assert(s.take(6) == sha256_name());
    assert(s.skip(7) == h);
    vstd::utf8::is_ascii_chars_encode_utf8(h);
}

// ── Streaming verification ───────────────────────────────────────────────

/// Streaming verifier: feed bytes, then check against the expected digest.
pub struct Verifier {
    expected: Digest,
    hash: Sha256State,
}

impl Verifier {
    /// The digest the content is checked against.
    pub closed spec fn expected(&self) -> Seq<char> {
        self.expected.0@
    }

    /// The content fed so far.
    pub closed spec fn fed(&self) -> Seq<u8> {
        sha256_absorbed(self.hash)
    }

    /// Create a verifier for an expected (validated) digest.
    pub fn new(expected: Digest) -> (r: Result<Verifier, DigestError>)
        ensures
            r is Ok <==> digest_valid(expected.0@),
            r matches Ok(v) ==> v.expected() == expected.0@ && v.fed() == Seq::<u8>::empty(),
            r matches Err(DigestError::Format(t)) ==> t@ == expected.0@ && malformed(expected.0@),
            r matches Err(DigestError::Algorithm(a)) ==> a@ == digest_algorithm(expected.0@)
                && digest_algorithm(expected.0@).len() != 0 && digest_hex(expected.0@).len() != 0
                && digest_algorithm(expected.0@) != sha256_name(),
            r matches Err(DigestError::Length(n)) ==> n == encode_utf8(digest_hex(expected.0@)).len()
                && digest_hex(expected.0@).len() != 0 && digest_algorithm(expected.0@) == sha256_name()
                && n != 64,
    {
        match expected.validate() {
            Ok(()) => Ok(Verifier { expected, hash: Sha256State::new() }),
            Err(e) => Err(e),
        }
    }

    /// Feed content.
    pub fn update(&mut self, data: &[u8])
        ensures
            final(self).expected() == old(self).expected(),
            final(self).fed() == old(self).fed() + data@,
    {
        self.hash.update(data);
    }

    /// True if the fed content matches the expected digest.
    pub fn verified(self) -> (ok: bool)
        ensures
            ok == digest_matches(self.expected(), self.fed()),
    {
        let want = self.expected.hex();
        let sum = self.hash.finalize();
        let have = hex_encode(sum.as_slice());
        str_eq_ignore_ascii_case(have.as_str(), want)
    }
}

/// Streaming SHA-256 over content read piece by piece (a file, an
/// uncompressed layer tar), yielding its digest or hex.
pub struct ContentHasher {
    hash: Sha256State,
}

impl ContentHasher {
    /// The content fed so far.
    pub closed spec fn fed(&self) -> Seq<u8> {
        sha256_absorbed(self.hash)
    }

    /// A hasher that has been fed nothing.
    pub fn new() -> (h: ContentHasher)
        ensures
            h.fed() == Seq::<u8>::empty(),
    {
        ContentHasher { hash: Sha256State::new() }
    }

    /// Feed the next piece of content.
    pub fn update(&mut self, data: &[u8])
        ensures
            final(self).fed() == old(self).fed() + data@,
    {
        self.hash.update(data);
    }

    /// The digest `sha256:<hex>` of everything fed.
    pub fn digest(self) -> (d: Digest)
        ensures
            d.0@ == digest_of(self.fed()),
            digest_valid(d.0@),
    {
        let ghost fed = self.fed();
        let sum = self.hash.finalize();
        let hex = hex_encode(sum.as_slice());
        let mut s = String::from_str("sha256:");
        proof {
            reveal_strlit("sha256:");
            assert("sha256:"@ == sha256_name().push(':'));
        }
        s.append(hex.as_str());
        proof {
            lemma_digest_of_parts(fed);
        }
        Digest(s)
    }

    /// The lowercase hex of the SHA-256 of everything fed.
    pub fn hex(self) -> (h: String)
        ensures
            h@ == hex_lower(sha256(self.fed())),
    {
        let sum = self.hash.finalize();
        hex_encode(sum.as_slice())
    }
}

/// Whether `a` and `b` are equal ignoring ASCII case (`str::eq_ignore_ascii_case`).
pub fn str_eq_ignore_ascii_case(a: &str, b: &str) -> (r: bool)
    ensures
        r == eq_ignore_ascii_case(a@, b@),
{
    let va = chars_of(a);
    let vb = chars_of(b);
    if va.len() != vb.len() {
        return false;
    }
    let mut i: usize = 0;
    while i < va.len()
        invariant
            va@ == a@,
            vb@ == b@,
            va@.len() == vb@.len(),
            i <= va@.len(),
            forall|j: int| 0 <= j < i ==> ascii_lower(va@[j]) == ascii_lower(vb@[j]),
        decreases va@.len() - i,
    {
        if char_ascii_lower(va[i]) != char_ascii_lower(vb[i]) {
            assert(ascii_lower(va@[i as int]) != ascii_lower(vb@[i as int]));
            return false;
        }
        i += 1;
    }
    true
}

/// `char::to_ascii_lowercase`.
pub fn char_ascii_lower(c: char) -> (r: char)
    ensures
        r == ascii_lower(c),
{
    if 'A' <= c && c <= 'Z' {
        ((c as u8) + 32) as char
    } else {
        c
    }
}

/// Feeding a verifier exactly the content a digest was computed from makes it
/// accept: the hex part of `digest_of(data)` is the hex of `data`'s SHA-256.
pub proof fn lemma_digest_of_matches(data: Seq<u8>)
    ensures
        digest_matches(digest_of(data), data),
{
    lemma_digest_of_parts(data);
}

} // verus!
