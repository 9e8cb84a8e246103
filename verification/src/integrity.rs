//! Integrity checks of downloaded and assembled files: declared sizes and
//! SHA-256 digests computed with the `sha2` crate.
use vstd::prelude::*;
use sha2::Digest;
use sha2::Sha256;
use crate::format::{decimal_exec, decimal_text, hex_bytes, hex_bytes_exec};
use crate::text::{chars_eq, chars_of, concat_chars, lower, lower_chars, string_of};

verus! {

/// A running `sha2::Sha256` hasher, held opaquely; what it has absorbed is
/// `absorbed`.
#[verifier::external_body]
pub struct Sha256State {
    inner: Sha256,
}

/// The bytes a SHA-256 hasher has absorbed since it was created.
pub uninterp spec fn absorbed(h: Sha256State) -> Seq<u8>;

/// What `Digest::finalize` of SHA-256 returns for the absorbed bytes.
pub uninterp spec fn sha256_of(data: Seq<u8>) -> Seq<u8>;

/// `Digest::new` of `sha2::Sha256`: a hasher that has absorbed nothing.
#[verifier::external_body]
fn sha256_new() -> (h: Sha256State)
    ensures
        absorbed(h) == Seq::<u8>::empty(),
{
    Sha256State { inner: Sha256::new() }
}

/// `Digest::update` of `sha2::Sha256`: absorbs `data` after what came before.
#[verifier::external_body]
fn sha256_update(h: &mut Sha256State, data: &[u8])
    ensures
        absorbed(*final(h)) == absorbed(*old(h)) + data@,
{
    h.inner.update(data)
}

/// `Digest::finalize` of `sha2::Sha256`: the 32-byte digest of everything
/// absorbed.
#[verifier::external_body]
fn sha256_finalize(h: Sha256State) -> (d: Vec<u8>)
    ensures
        d@ == sha256_of(absorbed(h)),
        d@.len() == 32,
{
    h.inner.finalize().to_vec()
}

/// A running SHA-256 digest of a stream of chunks.
pub struct ContentDigest {
    state: Sha256State,
}

impl ContentDigest {
    /// The bytes fed to this digest so far.
    pub closed spec fn data(&self) -> Seq<u8> {
        absorbed(self.state)
    }

    /// A digest that has absorbed nothing yet.
    pub fn new() -> (r: ContentDigest)
        ensures
            r.data() == Seq::<u8>::empty(),
    {
        ContentDigest { state: sha256_new() }
    }

    /// Feeds the next chunk of the stream.
    pub fn update(&mut self, chunk: &[u8])
        ensures
            final(self).data() == old(self).data() + chunk@,
    {
        sha256_update(&mut self.state, chunk);
    }

    /// The SHA-256 digest of all bytes fed.
    pub fn finish(self) -> (d: Vec<u8>)
        ensures
            d@ == sha256_of(self.data()),
            d@.len() == 32,
    {
        sha256_finalize(self.state)
    }
}

fn prefixed(a: &str, b: &[char]) -> (r: String)
    ensures
        r@ == a@ + b@,
{
    let mut r = chars_of(a);
    concat_chars(&mut r, b);
    string_of(&r)
}

/// The message of a failed size check.
pub open spec fn size_message(label: Seq<char>, expected: u64, actual: u64) -> Seq<char> {
    "Size check failed for "@ + label + ": expected "@ + decimal_text(expected as nat)
        + ", received "@ + decimal_text(actual as nat)
}

/// A file of `actual` bytes passes when `expected` bytes were declared.
pub fn check_size(label: &str, expected: u64, actual: u64) -> (r: Result<(), String>)
    ensures
        r is Ok <==> expected == actual,
        r matches Err(e) ==> e@ == size_message(label@, expected, actual),
{
    if expected == actual {
        return Ok(());
    }
    let mut m = chars_of("Size check failed for ");
    concat_chars(&mut m, &chars_of(label));
    concat_chars(&mut m, &chars_of(": expected "));
    concat_chars(&mut m, &decimal_exec(expected as u128));
    concat_chars(&mut m, &chars_of(", received "));
    concat_chars(&mut m, &decimal_exec(actual as u128));
    Err(string_of(&m))
}

/// ASCII-case-insensitive text equality, as `str::eq_ignore_ascii_case`.
pub open spec fn same_ignoring_case(a: Seq<char>, b: Seq<char>) -> bool {
    lower(a) == lower(b)
}

/// Whether `digest` is the SHA-256 digest written as `expected`, in
/// hexadecimal of either case.
pub open spec fn digest_matches(digest: Seq<u8>, expected: Seq<char>) -> bool {
    same_ignoring_case(hex_bytes(digest), expected)
}

/// A digest passes when its lower-case hexadecimal rendering equals the
/// declared SHA-256 text up to ASCII case.
pub fn check_sha256(label: &str, digest: &[u8], expected: &str) -> (r: Result<(), String>)
    ensures
        r is Ok <==> digest_matches(digest@, expected@),
        r matches Err(e) ==> e@ == "SHA-256 check failed for "@ + label@,
{
    let actual = lower_chars(&hex_bytes_exec(digest));
    let wanted = lower_chars(&chars_of(expected));
    if chars_eq(&actual, &wanted) {
        return Ok(());
    }
    let mut m = chars_of("SHA-256 check failed for ");
    concat_chars(&mut m, &chars_of(label));
    Err(string_of(&m))
}

/// Checks a finished download: its size when one was declared, then its
/// digest when one was declared.
pub fn check_download(
    url: &str,
    downloaded: u64,
    expected_bytes: Option<u64>,
    digest: &[u8],
    expected_sha256: Option<&str>,
) -> (r: Result<(), String>)
    ensures
        r is Ok <==> (match expected_bytes {
            Some(n) => n == downloaded,
            None => true,
        }) && (match expected_sha256 {
            Some(s) => digest_matches(digest@, s@),
            None => true,
        }),
        r matches Err(e) ==> match expected_bytes {
            Some(n) => if n != downloaded {
                e@ == size_message(url@, n, downloaded)
            } else {
                e@ == "SHA-256 check failed for "@ + url@
            },
            None => e@ == "SHA-256 check failed for "@ + url@,
        },
{
    match expected_bytes {
        Some(n) => check_size(url, n, downloaded)?,
        None => {},
    }
    match expected_sha256 {
        Some(s) => check_sha256(url, digest, s),
        None => Ok(()),
    }
}

/// A download must use HTTPS and must declare a size or a digest.
pub fn check_download_request(url: &str, expected_bytes: Option<u64>, has_sha256: bool) -> (r:
    Result<(), String>)
    ensures
        r is Ok <==> ("https://"@.is_prefix_of(url@) && (expected_bytes is Some || has_sha256)),
        r matches Err(e) ==> if !"https://"@.is_prefix_of(url@) {
            e@ == "Resource URL must use HTTPS: "@ + url@
        } else {
            e@ == "Resource has no size or SHA-256 validation: "@ + url@
        },
{
    let u = chars_of(url);
    let scheme = chars_of("https://");
    let secure = u.len() >= scheme.len() && chars_eq(&crate::text::sub_chars(&u, 0, scheme.len()), &scheme);
    proof {
        if "https://"@.is_prefix_of(url@) {
            assert(u@.subrange(0, scheme@.len() as int) =~= scheme@);
        }
        if secure {
            assert("https://"@.is_prefix_of(url@));
        }
    }
    if !secure {
        return Err(prefixed("Resource URL must use HTTPS: ", &u));
    }
    if expected_bytes.is_none() && !has_sha256 {
        return Err(prefixed("Resource has no size or SHA-256 validation: ", &u));
    }
    Ok(())
}

/// Where a download is written before it is verified: the destination with
/// `.part` appended.
pub fn part_path(destination: &str) -> (r: String)
    ensures
        r@ == destination@ + ".part"@,
{
    let mut r = chars_of(destination);
    concat_chars(&mut r, &chars_of(".part"));
    string_of(&r)
}

} // verus!
