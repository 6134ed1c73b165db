//! Exact acquisition of provider-hosted server mods: the checks that a
//! downloaded artifact, the provider's metadata about it and the inputs of
//! the provider API meet the signed canonical requirement. Network and file
//! access are the caller's.
use vstd::prelude::*;
use crate::server_mods::{ArtifactSide, InstalledServerMod};
use crate::text::{
    ascii_lower, chars_of, decimal_spec, decimal_string, eq_ignore_ascii_case, eq_ignore_ascii_case_spec,
    first_piece, first_sep, hex_spec, hex_string, lemma_first_sep_bounds, sub_vec, to_ascii_lower, trim, trim_spec,
};

verus! {

pub const MAX_PROVIDER_ARTIFACT_BYTES: u64 = 512 * 1024 * 1024;

// ---------------------------------------------------------------------------
// API key
// ---------------------------------------------------------------------------

/// A Unicode control character (general category Cc), as
/// `char::is_control` defines it.
pub open spec fn is_control_char(c: char) -> bool {
    (c as u32) <= 0x1f || (0x7f <= (c as u32) && (c as u32) <= 0x9f)
}

#[derive(Debug, Clone, Copy, PartialEq, Eq, Structural)]
pub enum ApiKeyError {
    /// The key is empty or holds a control character.
    InvalidKey,
}

impl ApiKeyError {
    pub fn message(&self) -> (r: String)
        ensures
            r@ == "SWARMCRAFT_CURSEFORGE_API_KEY contains invalid control characters"@,
    {
        String::from_str("SWARMCRAFT_CURSEFORGE_API_KEY contains invalid control characters")
    }
}

/// A provider API key must be non-empty and hold no control character, so
/// that it cannot inject a header.
pub fn validate_api_key(api_key: &str) -> (r: Result<(), ApiKeyError>)
    ensures
        r is Ok <==> api_key@.len() > 0 && forall|i: int| 0 <= i < api_key@.len() ==> !is_control_char(#[trigger] api_key@[i]),
{
    let chars = chars_of(api_key);
    if chars.len() == 0 {
        return Err(ApiKeyError::InvalidKey);
    }
    let mut i: usize = 0;
    while i < chars.len()
        invariant
            i <= chars@.len(),
            chars@ == api_key@,
            forall|k: int| 0 <= k < i ==> !is_control_char(#[trigger] chars@[k]),
        decreases chars@.len() - i,
    {
        let code = chars[i] as u32;
        if code <= 0x1f || (0x7f <= code && code <= 0x9f) {
            return Err(ApiKeyError::InvalidKey);
        }
        i = i + 1;
    }
    Ok(())
}

// ---------------------------------------------------------------------------
// HTTP status of provider API calls
// ---------------------------------------------------------------------------

/// Why a provider API call failed, by its HTTP status.
#[derive(Debug, Clone, Copy, PartialEq, Eq, Structural)]
pub enum StatusFailure {
    /// 401 or 403: the API key was rejected.
    KeyRejected,
    /// 404: the resource is unavailable or removed.
    NotFound,
    /// 429: rate limited.
    RateLimited,
    /// 5xx: the provider is unavailable.
    ProviderUnavailable,
    /// Any other status outside 2xx.
    Failed,
}

pub open spec fn status_failure(status: u16) -> Option<StatusFailure> {
    if 200 <= status <= 299 {
        None
    } else if status == 401 || status == 403 {
        Some(StatusFailure::KeyRejected)
    } else if status == 404 {
        Some(StatusFailure::NotFound)
    } else if status == 429 {
        Some(StatusFailure::RateLimited)
    } else if 500 <= status <= 599 {
        Some(StatusFailure::ProviderUnavailable)
    } else {
        Some(StatusFailure::Failed)
    }
}

#[derive(Debug)]
pub struct StatusError {
    pub failure: StatusFailure,
    pub status: u16,
    pub operation: String,
}

impl StatusError {
    pub fn message(&self) -> (r: String)
        ensures
            self.failure == StatusFailure::KeyRejected ==> r@
                == "CurseForge rejected SWARMCRAFT_CURSEFORGE_API_KEY while requesting "@ + self.operation@,
            self.failure == StatusFailure::NotFound ==> r@ == "CurseForge "@ + self.operation@
                + " is unavailable or removed"@,
            self.failure == StatusFailure::RateLimited ==> r@
                == "CurseForge rate limited runtime preparation while requesting "@ + self.operation@
                + "; retry later"@,
            self.failure == StatusFailure::ProviderUnavailable ==> r@
                == "CurseForge is unavailable while requesting "@ + self.operation@ + " (HTTP "@ + decimal_spec(
                self.status as nat,
            ) + ")"@,
            self.failure == StatusFailure::Failed ==> r@ == "CurseForge request for "@ + self.operation@
                + " failed with HTTP "@ + decimal_spec(self.status as nat),
    {
        match self.failure {
            StatusFailure::KeyRejected => {
                let mut text = String::from_str("CurseForge rejected SWARMCRAFT_CURSEFORGE_API_KEY while requesting ");
                text.append(self.operation.as_str());
                text
            },
            StatusFailure::NotFound => {
                let mut text = String::from_str("CurseForge ");
                text.append(self.operation.as_str());
                text.append(" is unavailable or removed");
                text
            },
            StatusFailure::RateLimited => {
                let mut text = String::from_str("CurseForge rate limited runtime preparation while requesting ");
                text.append(self.operation.as_str());
                text.append("; retry later");
                text
            },
            StatusFailure::ProviderUnavailable => {
                let mut text = String::from_str("CurseForge is unavailable while requesting ");
                text.append(self.operation.as_str());
                text.append(" (HTTP ");
                text.append(decimal_string(self.status as u64).as_str());
                text.append(")");
                text
            },
            StatusFailure::Failed => {
                let mut text = String::from_str("CurseForge request for ");
                text.append(self.operation.as_str());
                text.append(" failed with HTTP ");
                text.append(decimal_string(self.status as u64).as_str());
                text
            },
        }
    }
}

/// Accepts a 2xx status and classifies every other one.
pub fn ensure_curseforge_status(status: u16, operation: &str) -> (r: Result<(), StatusError>)
    ensures
        match status_failure(status) {
            None => r is Ok,
            Some(f) => r matches Err(e) && e.failure == f && e.status == status && e.operation@ == operation@,
        },
{
    let failure = if 200 <= status && status <= 299 {
        return Ok(());
    } else if status == 401 || status == 403 {
        StatusFailure::KeyRejected
    } else if status == 404 {
        StatusFailure::NotFound
    } else if status == 429 {
        StatusFailure::RateLimited
    } else if 500 <= status && status <= 599 {
        StatusFailure::ProviderUnavailable
    } else {
        StatusFailure::Failed
    };
    Err(StatusError { failure, status, operation: operation.to_owned() })
}

/// The download URL in a provider's answer: absent for 403 and 404, an
/// error for any other status outside 2xx, else the trimmed `data` string
/// where it is not blank.
pub fn download_url_from(status: u16, data: Option<String>) -> (r: Result<Option<String>, StatusError>)
    ensures
        status == 403 || status == 404 ==> r matches Ok(None),
        !(status == 403 || status == 404) ==> match status_failure(status) {
            Some(f) => r matches Err(e) && e.failure == f && e.status == status && e.operation@ == "download URL"@,
            None => r matches Ok(url) && match data {
                Some(d) => if trim_spec(d@).len() > 0 {
                    url matches Some(u) && u@ == trim_spec(d@)
                } else {
                    url is None
                },
                None => url is None,
            },
        },
{
    if status == 403 || status == 404 {
        return Ok(None);
    }
    ensure_curseforge_status(status, "download URL")?;
    match data {
        Some(d) => {
            let t = trim(d.as_str());
            if t.as_str().unicode_len() > 0 {
                Ok(Some(t))
            } else {
                Ok(None)
            }
        },
        None => Ok(None),
    }
}

// ---------------------------------------------------------------------------
// Artifact file names
// ---------------------------------------------------------------------------

pub open spec fn ascii_upper(c: char) -> char {
    if 'a' <= c && c <= 'z' {
        ((c as u32) - 32) as char
    } else {
        c
    }
}

/// The number of bytes that UTF-8 spends on one character.
pub open spec fn char_width(c: char) -> nat {
    if (c as u32) <= 0x7f {
        1
    } else if (c as u32) <= 0x7ff {
        2
    } else if (c as u32) <= 0xffff {
        3
    } else {
        4
    }
}

pub open spec fn utf8_width(s: Seq<char>) -> nat
    decreases s.len(),
{
    if s.len() == 0 {
        0
    } else {
        char_width(s[0]) + utf8_width(s.drop_first())
    }
}

proof fn lemma_utf8_width(s: Seq<char>)
    ensures
        vstd::utf8::encode_utf8(s).len() == utf8_width(s),
    decreases s.len(),
{
    if s.len() > 0 {
        lemma_utf8_width(s.drop_first());
        let c = s[0];
        vstd::utf8::char_is_scalar(c);
        assert(vstd::utf8::encode_scalar(c as u32).len() == char_width(c));
    }
}

/// The length in bytes of the UTF-8 encoding of `chars`.
pub(crate) fn utf8_length(chars: &Vec<char>) -> (r: u128)
    ensures
        r == vstd::utf8::encode_utf8(chars@).len(),
{
    proof {
        lemma_utf8_width(chars@);
    }
    let mut total: u128 = 0;
    let mut i: usize = chars.len();
    assert(chars@.len() == i);
    assert(chars@.subrange(i as int, i as int) =~= Seq::<char>::empty());
    while i > 0
        invariant
            i <= chars@.len(),
            total == utf8_width(chars@.subrange(i as int, chars@.len() as int)),
            total <= 4 * (chars@.len() - i),
            chars@.len() <= usize::MAX,
        decreases i,
    {
        let c = chars[i - 1];
        let code = c as u32;
        let width: u128 = if code <= 0x7f {
            1
        } else if code <= 0x7ff {
            2
        } else if code <= 0xffff {
            3
        } else {
            4
        };
        assert(chars@.subrange(i - 1, chars@.len() as int).drop_first() =~= chars@.subrange(i as int, chars@.len() as int));
        total = total + width;
        i = i - 1;
    }
    assert(chars@.subrange(0, chars@.len() as int) =~= chars@);
    total
}

pub open spec fn upper_text(s: Seq<char>) -> Seq<char> {
    s.map_values(|c: char| ascii_upper(c))
}

pub open spec fn lower_text(s: Seq<char>) -> Seq<char> {
    s.map_values(|c: char| ascii_lower(c))
}

/// A Windows device name: `CON`, `PRN`, `AUX`, `NUL`, or `COM`/`LPT`
/// followed by one digit from 1 to 9.
pub open spec fn windows_reserved(stem: Seq<char>) -> bool {
    ||| stem == "CON"@
    ||| stem == "PRN"@
    ||| stem == "AUX"@
    ||| stem == "NUL"@
    ||| (stem.len() == 4 && (stem.subrange(0, 3) == "COM"@ || stem.subrange(0, 3) == "LPT"@) && '1' <= stem[3]
        && stem[3] <= '9')
}

/// A safe portable JAR basename: more than 4 and at most 255 bytes of
/// UTF-8, no surrounding white space, no `/`, `\`, `:` or NUL, not `.` or
/// `..`, not ending in `.` or space, no Windows device name before its
/// first `.`, and ending in `.jar` up to ASCII case. Without a separator or
/// a drive colon the name is a single relative path component.
pub open spec fn safe_filename_spec(name: Seq<char>) -> bool {
    let len = vstd::utf8::encode_utf8(name).len();
    &&& len > 4
    &&& len <= 255
    &&& trim_spec(name) == name
    &&& forall|i: int| 0 <= i < name.len() ==> !(#[trigger] name[i] == '/' || name[i] == '\\' || name[i] == ':' || name[i] == '\0')
    &&& name != "."@
    &&& name != ".."@
    &&& name.last() != '.' && name.last() != ' '
    &&& !windows_reserved(upper_text(first_piece(name, seq!['.'])))
    &&& name.len() >= 4 && lower_text(name.subrange(name.len() - 4, name.len() as int)) == ".jar"@
}

#[derive(Debug, Clone, Copy, PartialEq, Eq, Structural)]
pub enum FileNameError {
    /// Not a safe portable JAR basename.
    Unsafe,
}

fn to_ascii_upper(c: char) -> (r: char)
    ensures
        r == ascii_upper(c),
{
    if 'a' <= c && c <= 'z' {
        ((c as u8) - 32) as char
    } else {
        c
    }
}

fn chars_equal(a: &[char], b: &[char]) -> (r: bool)
    ensures
        r == (a@ == b@),
{
    if a.len() != b.len() {
        return false;
    }
    let mut i: usize = 0;
    while i < a.len()
        invariant
            i <= a@.len(),
            a@.len() == b@.len(),
            forall|k: int| 0 <= k < i ==> a@[k] == b@[k],
        decreases a@.len() - i,
    {
        if a[i] != b[i] {
            return false;
        }
        i = i + 1;
    }
    assert(a@ =~= b@);
    true
}

fn is_windows_reserved(stem: &Vec<char>) -> (r: bool)
    ensures
        r == windows_reserved(stem@),
{
    proof {
        reveal_strlit("CON");
        reveal_strlit("PRN");
        reveal_strlit("AUX");
        reveal_strlit("NUL");
        reveal_strlit("COM");
        reveal_strlit("LPT");
    }
    let con = chars_of("CON");
    let prn = chars_of("PRN");
    let aux = chars_of("AUX");
    let nul = chars_of("NUL");
    if chars_equal(stem.as_slice(), con.as_slice()) || chars_equal(stem.as_slice(), prn.as_slice())
        || chars_equal(stem.as_slice(), aux.as_slice()) || chars_equal(stem.as_slice(), nul.as_slice()) {
        return true;
    }
    if stem.len() != 4 {
        return false;
    }
    let head = sub_vec(stem.as_slice(), 0, 3);
    let com = chars_of("COM");
    let lpt = chars_of("LPT");
    (chars_equal(head.as_slice(), com.as_slice()) || chars_equal(head.as_slice(), lpt.as_slice())) && '1' <= stem[3]
        && stem[3] <= '9'
}

/// Accepts only a safe portable JAR basename.
pub fn safe_filename(value: &str) -> (r: Result<(), FileNameError>)
    ensures
        r is Ok <==> safe_filename_spec(value@),
{
    let chars = chars_of(value);
    let len = utf8_length(&chars);
    if len <= 4 || len > 255 {
        return Err(FileNameError::Unsafe);
    }
    let trimmed = crate::text::trim_chars(chars.as_slice());
    if !chars_equal(trimmed.as_slice(), chars.as_slice()) {
        return Err(FileNameError::Unsafe);
    }
    let mut i: usize = 0;
    while i < chars.len()
        invariant
            i <= chars@.len(),
            chars@ == value@,
            forall|k: int| 0 <= k < i ==> !(#[trigger] chars@[k] == '/' || chars@[k] == '\\' || chars@[k] == ':' || chars@[k] == '\0'),
        decreases chars@.len() - i,
    {
        let c = chars[i];
        if c == '/' || c == '\\' || c == ':' || c == '\0' {
            return Err(FileNameError::Unsafe);
        }
        i = i + 1;
    }
    proof {
        reveal_strlit(".");
        reveal_strlit("..");
        reveal_strlit(".jar");
    }
    if chars.len() == 0 {
        return Err(FileNameError::Unsafe);
    }
    let dot = chars_of(".");
    let dots = chars_of("..");
    if chars_equal(chars.as_slice(), dot.as_slice()) || chars_equal(chars.as_slice(), dots.as_slice()) {
        return Err(FileNameError::Unsafe);
    }
    let last = chars[chars.len() - 1];
    if last == '.' || last == ' ' {
        return Err(FileNameError::Unsafe);
    }
    let separators = vec!['.'];
    proof {
        lemma_first_sep_bounds(chars@, separators@, 0);
    }
    let end = first_sep(chars.as_slice(), separators.as_slice(), 0);
    let mut stem: Vec<char> = Vec::new();
    let mut k: usize = 0;
    while k < end
        invariant
            k <= end <= chars@.len(),
            stem@.len() == k,
            stem@ == upper_text(chars@.subrange(0, k as int)),
        decreases end - k,
    {
        stem.push(to_ascii_upper(chars[k]));
        assert(stem@ =~= upper_text(chars@.subrange(0, k + 1)));
        k = k + 1;
    }
    assert(separators@ == seq!['.']);
    if is_windows_reserved(&stem) {
        return Err(FileNameError::Unsafe);
    }
    if chars.len() < 4 {
        return Err(FileNameError::Unsafe);
    }
    let n = chars.len();
    let mut tail: Vec<char> = Vec::new();
    let mut j: usize = n - 4;
    while j < n
        invariant
            n >= 4,
            n - 4 <= j <= n,
            n == chars@.len(),
            tail@.len() == j - (n - 4),
            tail@ == lower_text(chars@.subrange(n - 4, j as int)),
        decreases n - j,
    {
        tail.push(to_ascii_lower(chars[j]));
        assert(tail@ =~= lower_text(chars@.subrange(n - 4, j + 1)));
        j = j + 1;
    }
    let suffix = chars_of(".jar");
    if !chars_equal(tail.as_slice(), suffix.as_slice()) {
        return Err(FileNameError::Unsafe);
    }
    Ok(())
}


// ---------------------------------------------------------------------------
// Canonical provider hashes
// ---------------------------------------------------------------------------

#[derive(Debug, Clone, Copy, PartialEq, Eq, Structural)]
pub enum CanonicalHashAlgorithm {
    Sha1,
    Sha256,
    Sha512,
    Md5,
}

/// A digest that the signed requirement records for a provider file, as
/// hex.
pub struct CanonicalProviderHash {
    pub algorithm: CanonicalHashAlgorithm,
    pub digest_hex: String,
}

/// The SHA-1 digest of `data`, as the `sha1` crate computes it.
pub uninterp spec fn sha1_digest(data: Seq<u8>) -> Seq<u8>;

/// The SHA-256 digest of `data`, as the `sha2` crate computes it.
pub uninterp spec fn sha256_digest(data: Seq<u8>) -> Seq<u8>;

/// The SHA-512 digest of `data`, as the `sha2` crate computes it.
pub uninterp spec fn sha512_digest(data: Seq<u8>) -> Seq<u8>;

/// `sha1::Sha1::digest`; the result is named, not restated.
#[verifier::external_body]
fn sha1_of(data: &[u8]) -> (r: Vec<u8>)
    ensures
        r@ == sha1_digest(data@),
{
    <sha1::Sha1 as sha1::Digest>::digest(data).to_vec()
}

/// `sha2::Sha256::digest`; the result is named, not restated.
#[verifier::external_body]
fn sha256_of(data: &[u8]) -> (r: Vec<u8>)
    ensures
        r@ == sha256_digest(data@),
{
    <sha2::Sha256 as sha2::Digest>::digest(data).to_vec()
}

/// `sha2::Sha512::digest`; the result is named, not restated.
#[verifier::external_body]
fn sha512_of(data: &[u8]) -> (r: Vec<u8>)
    ensures
        r@ == sha512_digest(data@),
{
    <sha2::Sha512 as sha2::Digest>::digest(data).to_vec()
}

/// The hex digest of `data` under a strong algorithm; `None` for MD5,
/// which is never computed.
pub open spec fn actual_hex(algorithm: CanonicalHashAlgorithm, data: Seq<u8>) -> Option<Seq<char>> {
    match algorithm {
        CanonicalHashAlgorithm::Sha1 => Some(hex_spec(sha1_digest(data))),
        CanonicalHashAlgorithm::Sha256 => Some(hex_spec(sha256_digest(data))),
        CanonicalHashAlgorithm::Sha512 => Some(hex_spec(sha512_digest(data))),
        CanonicalHashAlgorithm::Md5 => None,
    }
}

/// The first recorded strong digest, from `from` on, that the data does not
/// match up to ASCII case.
pub open spec fn first_hash_mismatch(hashes: Seq<CanonicalProviderHash>, data: Seq<u8>, from: int) -> Option<int>
    decreases hashes.len() - from,
{
    if from < 0 || from >= hashes.len() {
        None
    } else if actual_hex(hashes[from].algorithm, data) matches Some(actual) && !eq_ignore_ascii_case_spec(
        actual,
        hashes[from].digest_hex@,
    ) {
        Some(from)
    } else {
        first_hash_mismatch(hashes, data, from + 1)
    }
}

pub open spec fn has_strong_hash(hashes: Seq<CanonicalProviderHash>) -> bool {
    exists|i: int| 0 <= i < hashes.len() && (#[trigger] hashes[i]).algorithm != CanonicalHashAlgorithm::Md5
}

#[derive(Debug, Clone, Copy, PartialEq, Eq, Structural)]
pub enum HashCheckError {
    /// The requirement records no provider hash at all.
    NoHashes,
    /// The data fails a recorded digest of this algorithm.
    Mismatch { algorithm: CanonicalHashAlgorithm },
    /// Only MD5 is recorded, which is not strong enough to accept a download.
    Md5Only,
}

/// The name an algorithm is reported under.
pub open spec fn algorithm_name(a: CanonicalHashAlgorithm) -> Seq<char> {
    match a {
        CanonicalHashAlgorithm::Sha1 => "Sha1"@,
        CanonicalHashAlgorithm::Sha256 => "Sha256"@,
        CanonicalHashAlgorithm::Sha512 => "Sha512"@,
        CanonicalHashAlgorithm::Md5 => "Md5"@,
    }
}

impl HashCheckError {
    pub fn message(&self) -> (r: String)
        ensures
            self is NoHashes ==> r@ == "provider-backed runtime artifact has no canonical provider hashes"@,
            self matches HashCheckError::Mismatch { algorithm } ==> r@ == "downloaded provider artifact failed canonical "@
                + algorithm_name(*algorithm) + " verification"@,
            self is Md5Only ==> r@
                == "automatic runtime acquisition requires a canonical SHA-1, SHA-256, or SHA-512 provider hash; MD5-only artifacts must be supplied manually"@,
    {
        match self {
            HashCheckError::NoHashes => String::from_str("provider-backed runtime artifact has no canonical provider hashes"),
            HashCheckError::Mismatch { algorithm } => {
                let mut text = String::from_str("downloaded provider artifact failed canonical ");
                text.append(
                    match algorithm {
                        CanonicalHashAlgorithm::Sha1 => "Sha1",
                        CanonicalHashAlgorithm::Sha256 => "Sha256",
                        CanonicalHashAlgorithm::Sha512 => "Sha512",
                        CanonicalHashAlgorithm::Md5 => "Md5",
                    },
                );
                text.append(" verification");
                text
            },
            HashCheckError::Md5Only => String::from_str(
                "automatic runtime acquisition requires a canonical SHA-1, SHA-256, or SHA-512 provider hash; MD5-only artifacts must be supplied manually",
            ),
        }
    }
}

/// Checks downloaded bytes against every recorded SHA-1, SHA-256 and SHA-512
/// digest, in order; MD5 digests are not checked, and a record with only
/// MD5 digests is refused.
pub fn verify_canonical_hashes(data: &[u8], hashes: &[CanonicalProviderHash]) -> (r: Result<(), HashCheckError>)
    ensures
        hashes@.len() == 0 ==> r == Err::<(), HashCheckError>(HashCheckError::NoHashes),
        hashes@.len() > 0 ==> match first_hash_mismatch(hashes@, data@, 0) {
            Some(i) => r == Err::<(), HashCheckError>(HashCheckError::Mismatch { algorithm: hashes@[i].algorithm }),
            None => if has_strong_hash(hashes@) {
                r is Ok
            } else {
                r == Err::<(), HashCheckError>(HashCheckError::Md5Only)
            },
        },
{
    if hashes.len() == 0 {
        return Err(HashCheckError::NoHashes);
    }
    let sha1_hex = chars_of(hex_string(sha1_of(data).as_slice()).as_str());
    let sha256_hex = chars_of(hex_string(sha256_of(data).as_slice()).as_str());
    let sha512_hex = chars_of(hex_string(sha512_of(data).as_slice()).as_str());
    let mut verified = false;
    let mut i: usize = 0;
    while i < hashes.len()
        invariant
            i <= hashes@.len(),
            sha1_hex@ == hex_spec(sha1_digest(data@)),
            sha256_hex@ == hex_spec(sha256_digest(data@)),
            sha512_hex@ == hex_spec(sha512_digest(data@)),
            first_hash_mismatch(hashes@, data@, 0) == first_hash_mismatch(hashes@, data@, i as int),
            verified == exists|k: int| 0 <= k < i && (#[trigger] hashes@[k]).algorithm != CanonicalHashAlgorithm::Md5,
        decreases hashes@.len() - i,
    {
        let hash = &hashes[i];
        let actual = match hash.algorithm {
            CanonicalHashAlgorithm::Sha1 => &sha1_hex,
            CanonicalHashAlgorithm::Sha256 => &sha256_hex,
            CanonicalHashAlgorithm::Sha512 => &sha512_hex,
            CanonicalHashAlgorithm::Md5 => {
                i = i + 1;
                continue;
            },
        };
        verified = true;
        let expected = chars_of(hash.digest_hex.as_str());
        if !eq_ignore_ascii_case(actual.as_slice(), expected.as_slice()) {
            return Err(HashCheckError::Mismatch { algorithm: hash.algorithm });
        }
        i = i + 1;
    }
    if !verified {
        return Err(HashCheckError::Md5Only);
    }
    Ok(())
}

/// The recorded digest of the first hash entry of `algorithm`.
pub fn canonical_hash(hashes: &[CanonicalProviderHash], algorithm: CanonicalHashAlgorithm) -> (r: Option<String>)
    ensures
        match r {
            Some(d) => exists|i: int|
                0 <= i < hashes@.len() && (#[trigger] hashes@[i]).algorithm == algorithm && d@ == hashes@[i].digest_hex@
                    && forall|k: int| 0 <= k < i ==> (#[trigger] hashes@[k]).algorithm != algorithm,
            None => forall|k: int| 0 <= k < hashes@.len() ==> (#[trigger] hashes@[k]).algorithm != algorithm,
        },
{
    let mut i: usize = 0;
    while i < hashes.len()
        invariant
            i <= hashes@.len(),
            forall|k: int| 0 <= k < i ==> (#[trigger] hashes@[k]).algorithm != algorithm,
        decreases hashes@.len() - i,
    {
        if hashes[i].algorithm == algorithm {
            return Some(hashes[i].digest_hex.clone());
        }
        i = i + 1;
    }
    None
}

// ---------------------------------------------------------------------------
// Provider metadata of an exact CurseForge file
// ---------------------------------------------------------------------------

/// One entry of the `hashes` array of a CurseForge file answer: its numeric
/// `algo` and string `value`, where present.
pub struct CurseForgeFileHash {
    pub algo: Option<u64>,
    pub value: Option<String>,
}

/// What a CurseForge file answer states about the file.
pub struct CurseForgeFile {
    pub id: Option<u64>,
    pub mod_id: Option<u64>,
    pub file_name: Option<String>,
    pub file_length: Option<u64>,
    pub hashes: Vec<CurseForgeFileHash>,
}

/// The exact provider file that a signed requirement names.
pub struct CanonicalProviderArtifact {
    pub file_name: String,
    pub file_size: Option<u64>,
    pub hashes: Vec<CanonicalProviderHash>,
}

#[derive(Debug, Clone, Copy, PartialEq, Eq, Structural)]
pub enum CurseForgeFileError {
    MissingId,
    MissingModId,
    IdentityChanged,
    MissingFileName,
    UnsafeFileName,
    FileNameChanged,
    MissingFileLength,
    SizeChanged,
    HashChanged,
}

/// CurseForge's numeric code for an algorithm it reports; SHA-256 and
/// SHA-512 it does not report.
pub open spec fn curseforge_algo(algorithm: CanonicalHashAlgorithm) -> Option<u64> {
    match algorithm {
        CanonicalHashAlgorithm::Sha1 => Some(1),
        CanonicalHashAlgorithm::Md5 => Some(2),
        _ => None,
    }
}

/// The value of the first reported hash entry with this algorithm code.
pub open spec fn reported_hash(entries: Seq<CurseForgeFileHash>, algo: u64, from: int) -> Option<Seq<char>>
    decreases entries.len() - from,
{
    if from < 0 || from >= entries.len() {
        None
    } else if entries[from].algo == Some(algo) {
        match entries[from].value {
            Some(v) => Some(v@),
            None => None,
        }
    } else {
        reported_hash(entries, algo, from + 1)
    }
}

/// A recorded digest that the provider reports differently.
pub open spec fn hash_contradicted(expected: CanonicalProviderHash, entries: Seq<CurseForgeFileHash>) -> bool {
    curseforge_algo(expected.algorithm) matches Some(algo) && reported_hash(entries, algo, 0) matches Some(v)
        && !eq_ignore_ascii_case_spec(v, expected.digest_hex@)
}

/// The first failing check of a CurseForge file answer, in the order they
/// are made; `None` where the answer describes exactly the signed file.
pub open spec fn curseforge_file_error(
    file: CurseForgeFile,
    project_id: u64,
    file_id: u64,
    artifact: CanonicalProviderArtifact,
) -> Option<CurseForgeFileError> {
    if file.id is None {
        Some(CurseForgeFileError::MissingId)
    } else if file.mod_id is None {
        Some(CurseForgeFileError::MissingModId)
    } else if file.id != Some(file_id) || file.mod_id != Some(project_id) {
        Some(CurseForgeFileError::IdentityChanged)
    } else if !(file.file_name matches Some(n) && trim_spec(n@).len() > 0) {
        Some(CurseForgeFileError::MissingFileName)
    } else if !safe_filename_spec(file.file_name->0@) {
        Some(CurseForgeFileError::UnsafeFileName)
    } else if file.file_name->0@ != artifact.file_name@ {
        Some(CurseForgeFileError::FileNameChanged)
    } else if artifact.file_size is Some && file.file_length is None {
        Some(CurseForgeFileError::MissingFileLength)
    } else if artifact.file_size is Some && file.file_length != artifact.file_size {
        Some(CurseForgeFileError::SizeChanged)
    } else if exists|i: int| 0 <= i < artifact.hashes@.len() && hash_contradicted(#[trigger] artifact.hashes@[i], file.hashes@) {
        Some(CurseForgeFileError::HashChanged)
    } else {
        None
    }
}

fn reported_hash_exec(entries: &Vec<CurseForgeFileHash>, algo: u64) -> (r: Option<Vec<char>>)
    ensures
        match r {
            Some(v) => reported_hash(entries@, algo, 0) == Some(v@),
            None => reported_hash(entries@, algo, 0) is None,
        },
{
    let mut i: usize = 0;
    while i < entries.len()
        invariant
            i <= entries@.len(),
            reported_hash(entries@, algo, 0) == reported_hash(entries@, algo, i as int),
        decreases entries@.len() - i,
    {
        if entries[i].algo == Some(algo) {
            return match &entries[i].value {
                Some(v) => Some(chars_of(v.as_str())),
                None => None,
            };
        }
        i = i + 1;
    }
    None
}

/// Checks that a CurseForge file answer describes exactly the signed file:
/// the same project and file ids, a safe file name equal to the signed
/// one, the signed size where one is recorded, and no reported SHA-1 or MD5
/// digest that differs from a recorded one.
pub fn validate_curseforge_file(
    file: &CurseForgeFile,
    project_id: u64,
    file_id: u64,
    artifact: &CanonicalProviderArtifact,
) -> (r: Result<(), CurseForgeFileError>)
    ensures
        match curseforge_file_error(*file, project_id, file_id, *artifact) {
            Some(e) => r == Err::<(), CurseForgeFileError>(e),
            None => r is Ok,
        },
{
    let actual_id = match file.id {
        Some(v) => v,
        None => {
            return Err(CurseForgeFileError::MissingId);
        },
    };
    let actual_project = match file.mod_id {
        Some(v) => v,
        None => {
            return Err(CurseForgeFileError::MissingModId);
        },
    };
    if actual_id != file_id || actual_project != project_id {
        return Err(CurseForgeFileError::IdentityChanged);
    }
    let name = match &file.file_name {
        Some(n) => {
            let t = trim(n.as_str());
            if t.as_str().unicode_len() == 0 {
                return Err(CurseForgeFileError::MissingFileName);
            }
            n
        },
        None => {
            return Err(CurseForgeFileError::MissingFileName);
        },
    };
    if safe_filename(name.as_str()).is_err() {
        return Err(CurseForgeFileError::UnsafeFileName);
    }
    if !(*name == artifact.file_name) {
        return Err(CurseForgeFileError::FileNameChanged);
    }
    match artifact.file_size {
        Some(expected) => {
            match file.file_length {
                Some(actual) => {
                    if actual != expected {
                        return Err(CurseForgeFileError::SizeChanged);
                    }
                },
                None => {
                    return Err(CurseForgeFileError::MissingFileLength);
                },
            }
        },
        None => {},
    }
    let mut i: usize = 0;
    while i < artifact.hashes.len()
        invariant
            i <= artifact.hashes@.len(),
            forall|k: int| 0 <= k < i ==> !hash_contradicted(#[trigger] artifact.hashes@[k], file.hashes@),
            (exists|k: int| 0 <= k < artifact.hashes@.len() && hash_contradicted(#[trigger] artifact.hashes@[k], file.hashes@))
                ==> curseforge_file_error(*file, project_id, file_id, *artifact) == Some(CurseForgeFileError::HashChanged),
            !(exists|k: int| 0 <= k < artifact.hashes@.len() && hash_contradicted(#[trigger] artifact.hashes@[k], file.hashes@))
                ==> curseforge_file_error(*file, project_id, file_id, *artifact) is None,
        decreases artifact.hashes@.len() - i,
    {
        let expected = &artifact.hashes[i];
        let algo: Option<u64> = match expected.algorithm {
            CanonicalHashAlgorithm::Sha1 => Some(1),
            CanonicalHashAlgorithm::Md5 => Some(2),
            _ => None,
        };
        match algo {
            Some(code) => {
                match reported_hash_exec(&file.hashes, code) {
                    Some(value) => {
                        let digest = chars_of(expected.digest_hex.as_str());
                        if !eq_ignore_ascii_case(value.as_slice(), digest.as_slice()) {
                            assert(hash_contradicted(artifact.hashes@[i as int], file.hashes@));
                            return Err(CurseForgeFileError::HashChanged);
                        }
                    },
                    None => {},
                }
            },
            None => {},
        }
        i = i + 1;
    }
    Ok(())
}


// ---------------------------------------------------------------------------
// Metadata budgets
// ---------------------------------------------------------------------------

pub const MAX_PROVIDER_METADATA_BYTES: usize = 2 * 1024 * 1024;

pub const MAX_PROVIDER_METADATA_HEADERS: usize = 128;

pub const MAX_PROVIDER_METADATA_HEADER_BYTES: usize = 64 * 1024;

pub const MAX_PROVIDER_METADATA_HEADER_VALUE_BYTES: usize = 16 * 1024;

pub const MAX_PROVIDER_METADATA_DEPTH: usize = 32;

pub const MAX_PROVIDER_METADATA_ARRAY_ITEMS: usize = 2048;

pub const MAX_PROVIDER_METADATA_OBJECT_ENTRIES: usize = 512;

pub const MAX_PROVIDER_METADATA_STRING_BYTES: usize = 64 * 1024;

pub const MAX_PROVIDER_METADATA_NODES: usize = 50_000;

pub const MAX_PROVIDER_METADATA_KEY_BYTES: usize = 256;

/// The shape of a parsed JSON metadata document, as far as its budgets read
/// it: the nesting, and the length in UTF-8 bytes of each string and key.
#[derive(Debug)]
pub enum MetadataValue {
    /// `null`, a boolean or a number.
    Scalar,
    /// A string of this many bytes.
    Text(usize),
    Array(Vec<MetadataValue>),
    /// The fields in document order: the key's length in bytes, and the value.
    Object(Vec<(usize, MetadataValue)>),
}

/// The budget that a provider response broke.
#[derive(Debug, Clone, Copy, PartialEq, Eq, Structural)]
pub enum MetadataLimit {
    TooDeep,
    TooManyValues,
    StringTooLarge,
    ArrayTooLarge,
    TooManyFields,
    KeyTooLarge,
    TooManyHeaders,
    HeadersTooLarge,
}

impl MetadataLimit {
    pub fn message(&self) -> (r: String)
        ensures
            *self == MetadataLimit::TooDeep ==> r@ == "response_too_large: CurseForge metadata nesting is too deep"@,
            *self == MetadataLimit::TooManyValues ==> r@
                == "response_too_large: CurseForge metadata contains too many values"@,
            *self == MetadataLimit::StringTooLarge ==> r@ == "response_too_large: CurseForge metadata string is too large"@,
            *self == MetadataLimit::ArrayTooLarge ==> r@ == "response_too_large: CurseForge metadata array is too large"@,
            *self == MetadataLimit::TooManyFields ==> r@
                == "response_too_large: CurseForge metadata object has too many fields"@,
            *self == MetadataLimit::KeyTooLarge ==> r@ == "response_too_large: CurseForge metadata key is too large"@,
            *self == MetadataLimit::TooManyHeaders ==> r@
                == "response_too_large: CurseForge returned too many metadata headers"@,
            *self == MetadataLimit::HeadersTooLarge ==> r@
                == "response_too_large: CurseForge metadata headers exceeded their byte budget"@,
    {
        match self {
            MetadataLimit::TooDeep => String::from_str("response_too_large: CurseForge metadata nesting is too deep"),
            MetadataLimit::TooManyValues => String::from_str(
                "response_too_large: CurseForge metadata contains too many values",
            ),
            MetadataLimit::StringTooLarge => String::from_str(
                "response_too_large: CurseForge metadata string is too large",
            ),
            MetadataLimit::ArrayTooLarge => String::from_str("response_too_large: CurseForge metadata array is too large"),
            MetadataLimit::TooManyFields => String::from_str(
                "response_too_large: CurseForge metadata object has too many fields",
            ),
            MetadataLimit::KeyTooLarge => String::from_str("response_too_large: CurseForge metadata key is too large"),
            MetadataLimit::TooManyHeaders => String::from_str(
                "response_too_large: CurseForge returned too many metadata headers",
            ),
            MetadataLimit::HeadersTooLarge => String::from_str(
                "response_too_large: CurseForge metadata headers exceeded their byte budget",
            ),
        }
    }
}

/// The walk of a document in document order, each value counted before its
/// children: the count of values seen so far after `v`, entered at `depth`
/// with `nodes` values already counted, or the first budget it breaks.
pub open spec fn visit_value(v: MetadataValue, depth: nat, nodes: nat) -> Result<nat, MetadataLimit>
    decreases v,
{
    if depth > MAX_PROVIDER_METADATA_DEPTH {
        Err(MetadataLimit::TooDeep)
    } else if nodes + 1 > MAX_PROVIDER_METADATA_NODES {
        Err(MetadataLimit::TooManyValues)
    } else {
        match v {
            MetadataValue::Scalar => Ok(nodes + 1),
            MetadataValue::Text(len) => if len > MAX_PROVIDER_METADATA_STRING_BYTES {
                Err(MetadataLimit::StringTooLarge)
            } else {
                Ok(nodes + 1)
            },
            MetadataValue::Array(items) => if items@.len() > MAX_PROVIDER_METADATA_ARRAY_ITEMS {
                Err(MetadataLimit::ArrayTooLarge)
            } else {
                visit_items(items@, depth + 1, nodes + 1)
            },
            MetadataValue::Object(fields) => if fields@.len() > MAX_PROVIDER_METADATA_OBJECT_ENTRIES {
                Err(MetadataLimit::TooManyFields)
            } else {
                visit_fields(fields@, depth + 1, nodes + 1)
            },
        }
    }
}

/// The walk over the items of an array, in order.
pub open spec fn visit_items(items: Seq<MetadataValue>, depth: nat, nodes: nat) -> Result<nat, MetadataLimit>
    decreases items,
{
    if items.len() == 0 {
        Ok(nodes)
    } else {
        match visit_value(items[0], depth, nodes) {
            Ok(n) => visit_items(items.drop_first(), depth, n),
            Err(e) => Err(e),
        }
    }
}

/// The walk over the fields of an object, in order, each key checked before
/// its value.
pub open spec fn visit_fields(fields: Seq<(usize, MetadataValue)>, depth: nat, nodes: nat) -> Result<
    nat,
    MetadataLimit,
>
    decreases fields,
{
    if fields.len() == 0 {
        Ok(nodes)
    } else if fields[0].0 > MAX_PROVIDER_METADATA_KEY_BYTES {
        Err(MetadataLimit::KeyTooLarge)
    } else {
        match visit_value(fields[0].1, depth, nodes) {
            Ok(n) => visit_fields(fields.drop_first(), depth, n),
            Err(e) => Err(e),
        }
    }
}

/// The number of values in a document: each value counts once, and an array
/// or object adds the values inside it.
pub open spec fn value_count(v: MetadataValue) -> nat
    decreases v,
{
    match v {
        MetadataValue::Array(items) => 1 + items_count(items@),
        MetadataValue::Object(fields) => 1 + fields_count(fields@),
        _ => 1,
    }
}

pub open spec fn items_count(items: Seq<MetadataValue>) -> nat
    decreases items,
{
    if items.len() == 0 {
        0
    } else {
        value_count(items[0]) + items_count(items.drop_first())
    }
}

pub open spec fn fields_count(fields: Seq<(usize, MetadataValue)>) -> nat
    decreases fields,
{
    if fields.len() == 0 {
        0
    } else {
        value_count(fields[0].1) + fields_count(fields.drop_first())
    }
}

proof fn lemma_visit_value_counts(v: MetadataValue, depth: nat, nodes: nat)
    ensures
        visit_value(v, depth, nodes) matches Ok(m) ==> m == nodes + value_count(v) && m <= MAX_PROVIDER_METADATA_NODES,
    decreases v,
{
    if depth <= MAX_PROVIDER_METADATA_DEPTH && nodes + 1 <= MAX_PROVIDER_METADATA_NODES {
        match v {
            MetadataValue::Array(items) => {
                lemma_visit_items_counts(items@, depth + 1, nodes + 1);
            },
            MetadataValue::Object(fields) => {
                lemma_visit_fields_counts(fields@, depth + 1, nodes + 1);
            },
            _ => {},
        }
    }
}

proof fn lemma_visit_items_counts(items: Seq<MetadataValue>, depth: nat, nodes: nat)
    ensures
        visit_items(items, depth, nodes) matches Ok(m) ==> m == nodes + items_count(items) && (nodes
            <= MAX_PROVIDER_METADATA_NODES ==> m <= MAX_PROVIDER_METADATA_NODES),
    decreases items,
{
    if items.len() > 0 {
        lemma_visit_value_counts(items[0], depth, nodes);
        match visit_value(items[0], depth, nodes) {
            Ok(k) => {
                lemma_visit_items_counts(items.drop_first(), depth, k);
            },
            Err(_) => {},
        }
    }
}

proof fn lemma_visit_fields_counts(fields: Seq<(usize, MetadataValue)>, depth: nat, nodes: nat)
    ensures
        visit_fields(fields, depth, nodes) matches Ok(m) ==> m == nodes + fields_count(fields) && (nodes
            <= MAX_PROVIDER_METADATA_NODES ==> m <= MAX_PROVIDER_METADATA_NODES),
    decreases fields,
{
    if fields.len() > 0 && fields[0].0 <= MAX_PROVIDER_METADATA_KEY_BYTES {
        lemma_visit_value_counts(fields[0].1, depth, nodes);
        match visit_value(fields[0].1, depth, nodes) {
            Ok(k) => {
                lemma_visit_fields_counts(fields.drop_first(), depth, k);
            },
            Err(_) => {},
        }
    }
}

/// A metadata document that passes its budgets holds at most
/// `MAX_PROVIDER_METADATA_NODES` values, however it nests.
pub proof fn lemma_accepted_metadata_is_bounded(v: MetadataValue)
    requires
        visit_value(v, 0, 0) is Ok,
    ensures
        value_count(v) <= MAX_PROVIDER_METADATA_NODES,
{
    lemma_visit_value_counts(v, 0, 0);
}

fn visit_metadata(value: &MetadataValue, depth: usize, nodes: &mut usize) -> (r: Result<(), MetadataLimit>)
    requires
        depth <= MAX_PROVIDER_METADATA_DEPTH + 1,
        *old(nodes) <= MAX_PROVIDER_METADATA_NODES,
    ensures
        match visit_value(*value, depth as nat, *old(nodes) as nat) {
            Ok(n) => r is Ok && *final(nodes) == n,
            Err(e) => r == Err::<(), MetadataLimit>(e),
        },
        r is Ok ==> *final(nodes) <= MAX_PROVIDER_METADATA_NODES,
    decreases value,
{
    let ghost entry = *nodes as nat;
    if depth > MAX_PROVIDER_METADATA_DEPTH {
        return Err(MetadataLimit::TooDeep);
    }
    *nodes = *nodes + 1;
    if *nodes > MAX_PROVIDER_METADATA_NODES {
        return Err(MetadataLimit::TooManyValues);
    }
    match value {
        MetadataValue::Scalar => Ok(()),
        MetadataValue::Text(len) => {
            if *len > MAX_PROVIDER_METADATA_STRING_BYTES {
                Err(MetadataLimit::StringTooLarge)
            } else {
                Ok(())
            }
        },
        MetadataValue::Array(items) => {
            if items.len() > MAX_PROVIDER_METADATA_ARRAY_ITEMS {
                return Err(MetadataLimit::ArrayTooLarge);
            }
            let ghost start = *nodes as nat;
            let mut i: usize = 0;
            assert(items@.subrange(0, items@.len() as int) =~= items@);
            while i < items.len()
                invariant
                    i <= items@.len(),
                    depth <= MAX_PROVIDER_METADATA_DEPTH,
                    *nodes <= MAX_PROVIDER_METADATA_NODES,
                    *value == MetadataValue::Array(*items),
                    entry == *old(nodes) as nat,
                    visit_value(*value, depth as nat, entry) == visit_items(items@, depth as nat + 1, start),
                    visit_items(items@, depth as nat + 1, start) == visit_items(
                        items@.subrange(i as int, items@.len() as int),
                        depth as nat + 1,
                        *nodes as nat,
                    ),
                decreases items@.len() - i,
            {
                proof {
                    let rest = items@.subrange(i as int, items@.len() as int);
                    assert(rest.drop_first() =~= items@.subrange(i + 1, items@.len() as int));
                    assert(rest[0] == items@[i as int]);
                    assert(decreases_to!(*value => *items));
                    assert(decreases_to!(*items => items@));
                    assert(decreases_to!(items@ => items@[i as int]));
                }
                let ghost before = *nodes as nat;
                match visit_metadata(&items[i], depth + 1, nodes) {
                    Ok(()) => {},
                    Err(e) => {
                        assert(visit_items(items@.subrange(i as int, items@.len() as int), depth as nat + 1, before)
                            == Err::<nat, MetadataLimit>(e));
                        return Err(e);
                    },
                }
                i = i + 1;
            }
            Ok(())
        },
        MetadataValue::Object(fields) => {
            if fields.len() > MAX_PROVIDER_METADATA_OBJECT_ENTRIES {
                return Err(MetadataLimit::TooManyFields);
            }
            let ghost start = *nodes as nat;
            let mut i: usize = 0;
            assert(fields@.subrange(0, fields@.len() as int) =~= fields@);
            while i < fields.len()
                invariant
                    i <= fields@.len(),
                    depth <= MAX_PROVIDER_METADATA_DEPTH,
                    *nodes <= MAX_PROVIDER_METADATA_NODES,
                    *value == MetadataValue::Object(*fields),
                    entry == *old(nodes) as nat,
                    visit_value(*value, depth as nat, entry) == visit_fields(fields@, depth as nat + 1, start),
                    visit_fields(fields@, depth as nat + 1, start) == visit_fields(
                        fields@.subrange(i as int, fields@.len() as int),
                        depth as nat + 1,
                        *nodes as nat,
                    ),
                decreases fields@.len() - i,
            {
                proof {
                    let rest = fields@.subrange(i as int, fields@.len() as int);
                    assert(rest.drop_first() =~= fields@.subrange(i + 1, fields@.len() as int));
                    assert(rest[0] == fields@[i as int]);
                    assert(decreases_to!(*value => *fields));
                    assert(decreases_to!(*fields => fields@));
                    assert(decreases_to!(fields@ => fields@[i as int]));
                    assert(decreases_to!(fields@[i as int] => fields@[i as int].1));
                }
                let (key_bytes, item) = &fields[i];
                let ghost before = *nodes as nat;
                if *key_bytes > MAX_PROVIDER_METADATA_KEY_BYTES {
                    assert(visit_fields(fields@.subrange(i as int, fields@.len() as int), depth as nat + 1, before)
                        == Err::<nat, MetadataLimit>(MetadataLimit::KeyTooLarge));
                    return Err(MetadataLimit::KeyTooLarge);
                }
                match visit_metadata(item, depth + 1, nodes) {
                    Ok(()) => {},
                    Err(e) => {
                        assert(visit_fields(fields@.subrange(i as int, fields@.len() as int), depth as nat + 1, before)
                            == Err::<nat, MetadataLimit>(e));
                        return Err(e);
                    },
                }
                i = i + 1;
            }
            Ok(())
        },
    }
}

/// A parsed metadata document is accepted exactly when its walk breaks no
/// budget: at most `MAX_PROVIDER_METADATA_DEPTH` levels of nesting, at most
/// `MAX_PROVIDER_METADATA_NODES` values, and each string, array, object and
/// key within its own bound. The error is the first budget broken in
/// document order.
pub fn validate_metadata_value(value: &MetadataValue) -> (r: Result<(), MetadataLimit>)
    ensures
        match visit_value(*value, 0, 0) {
            Ok(_) => r is Ok,
            Err(e) => r == Err::<(), MetadataLimit>(e),
        },
{
    let mut nodes: usize = 0;
    visit_metadata(value, 0, &mut nodes)
}

/// The size of one response header: its name and its value in bytes.
#[derive(Debug, Clone, Copy)]
pub struct HeaderSize {
    pub name_bytes: usize,
    pub value_bytes: usize,
}

/// The bytes of the first `n` headers, names and values together.
pub open spec fn header_total(headers: Seq<HeaderSize>, n: int) -> nat
    decreases n,
{
    if n <= 0 {
        0
    } else {
        header_total(headers, n - 1) + headers[n - 1].name_bytes as nat + headers[n - 1].value_bytes as nat
    }
}

/// The header at `i` holds a value over its bound, or brings the headers up
/// to it over the total bound.
pub open spec fn header_over_budget(headers: Seq<HeaderSize>, i: int) -> bool {
    headers[i].value_bytes > MAX_PROVIDER_METADATA_HEADER_VALUE_BYTES || header_total(headers, i + 1)
        > MAX_PROVIDER_METADATA_HEADER_BYTES
}

/// The response headers are accepted when there are at most
/// `MAX_PROVIDER_METADATA_HEADERS` of them, no value is over
/// `MAX_PROVIDER_METADATA_HEADER_VALUE_BYTES` and all of them together stay
/// within `MAX_PROVIDER_METADATA_HEADER_BYTES`.
pub fn validate_metadata_headers(headers: &[HeaderSize]) -> (r: Result<(), MetadataLimit>)
    ensures
        r == (if headers@.len() > MAX_PROVIDER_METADATA_HEADERS {
            Err(MetadataLimit::TooManyHeaders)
        } else if exists|i: int| 0 <= i < headers@.len() && #[trigger] header_over_budget(headers@, i) {
            Err(MetadataLimit::HeadersTooLarge)
        } else {
            Ok(())
        }),
{
    if headers.len() > MAX_PROVIDER_METADATA_HEADERS {
        return Err(MetadataLimit::TooManyHeaders);
    }
    let mut total: usize = 0;
    let mut i: usize = 0;
    while i < headers.len()
        invariant
            i <= headers@.len(),
            headers@.len() <= MAX_PROVIDER_METADATA_HEADERS,
            total as nat == header_total(headers@, i as int),
            total <= MAX_PROVIDER_METADATA_HEADER_BYTES,
            forall|k: int| 0 <= k < i ==> !#[trigger] header_over_budget(headers@, k),
        decreases headers@.len() - i,
    {
        let h = headers[i];
        assert(header_total(headers@, i + 1) == header_total(headers@, i as int) + h.name_bytes + h.value_bytes);
        total = total.saturating_add(h.name_bytes).saturating_add(h.value_bytes);
        if h.value_bytes > MAX_PROVIDER_METADATA_HEADER_VALUE_BYTES || total > MAX_PROVIDER_METADATA_HEADER_BYTES {
            assert(header_over_budget(headers@, i as int));
            return Err(MetadataLimit::HeadersTooLarge);
        }
        i = i + 1;
    }
    Ok(())
}

// ---------------------------------------------------------------------------
// Acquisition of missing server mods
// ---------------------------------------------------------------------------

/// A provider that hosts canonical mod files.
#[derive(Debug, Clone, Copy, PartialEq, Eq, Structural)]
pub enum ProviderName {
    Modrinth,
    CurseForge,
}

/// Where the canonical file of a package comes from.
#[derive(Debug)]
pub enum PackageSource {
    /// A local or imported JAR: only the user can supply it.
    Local,
    /// A provider file, with its identity; `manual_required` where the
    /// provider's terms forbid an automatic download.
    Provider { provider: ProviderName, project_id: String, version_id: String, file_name: String, manual_required: bool },
}

/// One package of a world's canonical modpack.
#[derive(Debug)]
pub struct CanonicalPackage {
    pub artifact_id: String,
    pub version: String,
    pub artifact_hash: String,
    pub side: ArtifactSide,
    pub source: PackageSource,
}

/// What runtime preparation does for one package.
#[derive(Debug, Clone, Copy, PartialEq, Eq, Structural)]
pub enum AcquisitionStep {
    /// A client-only package: nothing on the server.
    NotForServer,
    /// The exact JAR is installed already.
    Installed,
    /// Download the file from this provider.
    Download(ProviderName),
}

/// Why runtime preparation cannot obtain a package.
#[derive(Debug)]
pub enum AcquisitionError {
    /// Another version of the mod is installed.
    VersionConflict { artifact_id: String, installed_version: String, version: String, artifact_hash: String },
    /// A local package that is not installed.
    LocalArtifactMissing { artifact_id: String, version: String },
    /// A provider file that must be fetched by hand.
    ManualRetrievalRequired { provider: ProviderName, project_id: String, version_id: String, file_name: String },
    /// The download's size differs from the canonical size.
    SizeMismatch { file_name: String, expected: u64, actual: u64 },
}

pub open spec fn provider_label(p: ProviderName) -> Seq<char> {
    match p {
        ProviderName::Modrinth => "Modrinth"@,
        ProviderName::CurseForge => "CurseForge"@,
    }
}

impl AcquisitionError {
    pub fn message(&self) -> (r: String)
        ensures
            self matches AcquisitionError::VersionConflict { artifact_id, installed_version, version, artifact_hash }
                ==> r@ == "installed mod "@ + artifact_id@ + " is version "@ + installed_version@
                + " but this world requires exact version "@ + version@ + " with artifact hash "@ + artifact_hash@
                + "; remove the incompatible local JAR before retrying runtime preparation"@,
            self matches AcquisitionError::LocalArtifactMissing { artifact_id, version } ==> r@ == "required mod "@
                + artifact_id@ + " "@ + version@
                + " is an exact local/imported artifact and is not installed; supply the original canonical JAR through the world Mods flow before runtime preparation"@,
            self matches AcquisitionError::ManualRetrievalRequired { provider, project_id, version_id, file_name } ==> r@
                == "automatic download is not permitted for exact "@ + provider_label(*provider) + " artifact "@
                + project_id@ + "/"@ + version_id@ + " ("@ + file_name@
                + "); obtain that exact provider file and add it through the world Mods flow"@,
            self matches AcquisitionError::SizeMismatch { file_name, expected, actual } ==> r@
                == "provider artifact size mismatch for "@ + file_name@ + ": canonical source requires "@
                + decimal_spec(*expected as nat) + " bytes, downloaded "@ + decimal_spec(*actual as nat),
    {
        match self {
            AcquisitionError::VersionConflict { artifact_id, installed_version, version, artifact_hash } => {
                let mut text = String::from_str("installed mod ");
                text.append(artifact_id.as_str());
                text.append(" is version ");
                text.append(installed_version.as_str());
                text.append(" but this world requires exact version ");
                text.append(version.as_str());
                text.append(" with artifact hash ");
                text.append(artifact_hash.as_str());
                text.append("; remove the incompatible local JAR before retrying runtime preparation");
                text
            },
            AcquisitionError::LocalArtifactMissing { artifact_id, version } => {
                let mut text = String::from_str("required mod ");
                text.append(artifact_id.as_str());
                text.append(" ");
                text.append(version.as_str());
                text.append(
                    " is an exact local/imported artifact and is not installed; supply the original canonical JAR through the world Mods flow before runtime preparation",
                );
                text
            },
            AcquisitionError::ManualRetrievalRequired { provider, project_id, version_id, file_name } => {
                let mut text = String::from_str("automatic download is not permitted for exact ");
                match provider {
                    ProviderName::Modrinth => text.append("Modrinth"),
                    ProviderName::CurseForge => text.append("CurseForge"),
                }
                text.append(" artifact ");
                text.append(project_id.as_str());
                text.append("/");
                text.append(version_id.as_str());
                text.append(" (");
                text.append(file_name.as_str());
                text.append("); obtain that exact provider file and add it through the world Mods flow");
                text
            },
            AcquisitionError::SizeMismatch { file_name, expected, actual } => {
                let mut text = String::from_str("provider artifact size mismatch for ");
                text.append(file_name.as_str());
                text.append(": canonical source requires ");
                let e = decimal_string(*expected);
                text.append(e.as_str());
                text.append(" bytes, downloaded ");
                let a = decimal_string(*actual);
                text.append(a.as_str());
                text
            },
        }
    }
}

/// An installed JAR is exactly the package: same mod id, version and hash.
pub open spec fn installed_matches(m: InstalledServerMod, p: CanonicalPackage) -> bool {
    m.mod_id@ == p.artifact_id@ && m.version@ == p.version@ && m.artifact_hash@ == p.artifact_hash@
}

/// The first installed JAR of the package's mod, from `from` on.
pub open spec fn first_of_mod(installed: Seq<InstalledServerMod>, id: Seq<char>, from: int) -> Option<int>
    decreases installed.len() - from,
{
    if from < 0 || from >= installed.len() {
        None
    } else if installed[from].mod_id@ == id {
        Some(from)
    } else {
        first_of_mod(installed, id, from + 1)
    }
}

proof fn lemma_first_of_mod_bounds(installed: Seq<InstalledServerMod>, id: Seq<char>, from: int)
    ensures
        first_of_mod(installed, id, from) matches Some(i) ==> from <= i < installed.len() && installed[i].mod_id@ == id,
    decreases installed.len() - from,
{
    if 0 <= from < installed.len() && installed[from].mod_id@ != id {
        lemma_first_of_mod_bounds(installed, id, from + 1);
    }
}

/// What runtime preparation does for `package` given the installed JARs: a
/// client-only package is not for the server; an exact installed JAR
/// satisfies it; another version of the mod blocks it; otherwise a local
/// package must be supplied by the user, a manual provider file fetched by
/// hand, and any other provider file is downloaded.
pub open spec fn acquisition_spec(p: CanonicalPackage, installed: Seq<InstalledServerMod>) -> Result<
    AcquisitionStep,
    AcquisitionError,
> {
    if p.side == ArtifactSide::Client {
        Ok(AcquisitionStep::NotForServer)
    } else if exists|i: int| 0 <= i < installed.len() && installed_matches(#[trigger] installed[i], p) {
        Ok(AcquisitionStep::Installed)
    } else {
        match first_of_mod(installed, p.artifact_id@, 0) {
            Some(i) => Err(
                AcquisitionError::VersionConflict {
                    artifact_id: p.artifact_id,
                    installed_version: installed[i].version,
                    version: p.version,
                    artifact_hash: p.artifact_hash,
                },
            ),
            None => match p.source {
                PackageSource::Local => Err(
                    AcquisitionError::LocalArtifactMissing { artifact_id: p.artifact_id, version: p.version },
                ),
                PackageSource::Provider { provider, project_id, version_id, file_name, manual_required } => if manual_required {
                    Err(AcquisitionError::ManualRetrievalRequired { provider, project_id, version_id, file_name })
                } else {
                    Ok(AcquisitionStep::Download(provider))
                },
            },
        }
    }
}

/// The step runtime preparation takes for one package of the world's
/// canonical modpack.
pub fn acquisition_step(package: &CanonicalPackage, installed: &[InstalledServerMod]) -> (r: Result<
    AcquisitionStep,
    AcquisitionError,
>)
    ensures
        r == acquisition_spec(*package, installed@),
{
    match package.side {
        ArtifactSide::Client => {
            return Ok(AcquisitionStep::NotForServer);
        },
        _ => {},
    }
    let mut i: usize = 0;
    while i < installed.len()
        invariant
            i <= installed@.len(),
            package.side != ArtifactSide::Client,
            forall|k: int| 0 <= k < i ==> !installed_matches(#[trigger] installed@[k], *package),
        decreases installed@.len() - i,
    {
        let m = &installed[i];
        if m.mod_id == package.artifact_id && m.version == package.version && m.artifact_hash == package.artifact_hash {
            assert(installed_matches(installed@[i as int], *package));
            return Ok(AcquisitionStep::Installed);
        }
        i = i + 1;
    }
    proof {
        lemma_first_of_mod_bounds(installed@, package.artifact_id@, 0);
    }
    let mut j: usize = 0;
    while j < installed.len()
        invariant
            j <= installed@.len(),
            package.side != ArtifactSide::Client,
            forall|k: int| 0 <= k < installed@.len() ==> !installed_matches(#[trigger] installed@[k], *package),
            first_of_mod(installed@, package.artifact_id@, 0) == first_of_mod(installed@, package.artifact_id@, j as int),
        decreases installed@.len() - j,
    {
        if installed[j].mod_id == package.artifact_id {
            return Err(
                AcquisitionError::VersionConflict {
                    artifact_id: package.artifact_id.clone(),
                    installed_version: installed[j].version.clone(),
                    version: package.version.clone(),
                    artifact_hash: package.artifact_hash.clone(),
                },
            );
        }
        j = j + 1;
    }
    match &package.source {
        PackageSource::Local => Err(
            AcquisitionError::LocalArtifactMissing {
                artifact_id: package.artifact_id.clone(),
                version: package.version.clone(),
            },
        ),
        PackageSource::Provider { provider, project_id, version_id, file_name, manual_required } => {
            if *manual_required {
                Err(
                    AcquisitionError::ManualRetrievalRequired {
                        provider: *provider,
                        project_id: project_id.clone(),
                        version_id: version_id.clone(),
                        file_name: file_name.clone(),
                    },
                )
            } else {
                Ok(AcquisitionStep::Download(*provider))
            }
        },
    }
}

/// A downloaded file must have the canonical size, where one is recorded.
pub fn check_artifact_size(file_name: &String, expected: Option<u64>, actual: u64) -> (r: Result<(), AcquisitionError>)
    ensures
        match expected {
            Some(e) => if e != actual {
                r matches Err(AcquisitionError::SizeMismatch { file_name: f, expected: x, actual: a }) && f@
                    == file_name@ && x == e && a == actual
            } else {
                r is Ok
            },
            None => r is Ok,
        },
{
    match expected {
        Some(e) => {
            if e != actual {
                Err(AcquisitionError::SizeMismatch { file_name: file_name.clone(), expected: e, actual })
            } else {
                Ok(())
            }
        },
        None => Ok(()),
    }
}

} // verus!
