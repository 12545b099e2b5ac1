//! Content fingerprints and what a file path tells about a file.
use vstd::prelude::*;

use sha2::Digest;

use crate::DEFAULT_MIME_TYPE;

verus! {

/// The dedup key: a 256-bit digest read as four signed 64-bit words.
pub type HashKey = (i64, i64, i64, i64);

/// The number a little-endian byte sequence denotes.
pub open spec fn le_value(s: Seq<u8>) -> nat
    decreases s.len(),
{
    if s.len() == 0 {
        0
    } else {
        s[0] as nat + 256 * le_value(s.drop_first())
    }
}

/// `256` to the power `n`.
pub open spec fn pow256(n: nat) -> nat
    decreases n,
{
    if n == 0 {
        1
    } else {
        256 * pow256((n - 1) as nat)
    }
}

/// The `k`-th 8-byte word of a digest, read little-endian as a signed integer.
pub open spec fn digest_word(d: Seq<u8>, k: int) -> i64 {
    #[verifier::truncate] (le_value(d.subrange(8 * k, 8 * k + 8)) as i64)
}

/// The dedup key of a 32-byte digest.
pub open spec fn key_of_digest(d: Seq<u8>) -> HashKey {
    (digest_word(d, 0), digest_word(d, 1), digest_word(d, 2), digest_word(d, 3))
}

/// The SHA-256 digest of a byte sequence.
pub uninterp spec fn sha256_of(data: Seq<u8>) -> Seq<u8>;

/// The dedup key of some content: its SHA-256 digest split into four words.
pub open spec fn hash_key_of(content: Seq<u8>) -> HashKey {
    key_of_digest(sha256_of(content))
}

/// The extension of a path, as `std::path::Path::extension` finds it.
pub uninterp spec fn path_extension(path: Seq<char>) -> Option<Seq<char>>;

/// The MIME type that `mime_guess` names first for an extension, or
/// `application/octet-stream` where it knows none.
pub uninterp spec fn mime_for_extension(ext: Seq<char>) -> Seq<char>;

/// The MIME type of a path: the guess for its extension, or the default
/// where the path has no extension.
pub open spec fn mime_of_path(path: Seq<char>) -> Seq<char> {
    match path_extension(path) {
        Some(ext) => mime_for_extension(ext),
        None => DEFAULT_MIME_TYPE@,
    }
}

proof fn lemma_le_value_bound(s: Seq<u8>)
    ensures
        le_value(s) < pow256(s.len()),
    decreases s.len(),
{
    if s.len() > 0 {
        lemma_le_value_bound(s.drop_first());
        let rest = le_value(s.drop_first());
        let p = pow256((s.len() - 1) as nat);
        assert(s[0] as nat + 256 * rest < 256 * p) by (nonlinear_arith)
            requires
                rest < p,
                s[0] < 256,
        ;
    }
}

proof fn lemma_pow256_monotone(a: nat, b: nat)
    requires
        a <= b,
    ensures
        pow256(a) <= pow256(b),
    decreases b,
{
    if a < b {
        lemma_pow256_monotone(a, (b - 1) as nat);
    }
}

/// Reads the 8 bytes from `start` as a little-endian signed integer.
fn read_word(bytes: &[u8], start: usize) -> (r: i64)
    requires
        start + 8 <= bytes@.len(),
    ensures
        r == #[verifier::truncate] (le_value(bytes@.subrange(start as int, start + 8)) as i64),
{
    let len = bytes.len();
    let mut acc: u64 = 0;
    let mut i: usize = 8;
    while i > 0
        invariant
            len == bytes@.len(),
            start + 8 <= bytes@.len(),
            i <= 8,
            acc == le_value(bytes@.subrange(start + i, start + 8)),
        decreases i,
    {
        let ghost tail = bytes@.subrange(start + i, start + 8);
        let ghost next = bytes@.subrange(start + i - 1, start + 8);
        proof {
            assert(next.drop_first() =~= tail);
            lemma_le_value_bound(tail);
            lemma_pow256_monotone(tail.len(), 7);
            reveal_with_fuel(pow256, 8);
        }
        let b = bytes[start + i - 1];
        acc = acc * 256 + b as u64;
        i = i - 1;
    }
    #[verifier::truncate] (acc as i64)
}

/// Splits a 32-byte digest into four little-endian signed 64-bit words.
pub fn separate_hash(hash: &[u8]) -> (r: HashKey)
    requires
        hash@.len() == 32,
    ensures
        r == key_of_digest(hash@),
{
    (read_word(hash, 0), read_word(hash, 8), read_word(hash, 16), read_word(hash, 24))
}

/// Relies on `sha2::Sha256::digest`: the 32-byte SHA-256 digest of the data.
#[verifier::external_body]
fn sha256_digest(data: &[u8]) -> (r: Vec<u8>)
    ensures
        r@ == sha256_of(data@),
        r@.len() == 32,
{
    sha2::Sha256::digest(data).to_vec()
}

/// The dedup key of a buffer.
pub fn get_hash_by_buffer(buffer: &[u8]) -> (r: HashKey)
    ensures
        r == hash_key_of(buffer@),
{
    let digest = sha256_digest(buffer);
    separate_hash(digest.as_slice())
}

/// Relies on `std::path::Path::extension`: the extension of the path's file
/// name, if it has one.
#[verifier::external_body]
fn extension_of(path: &str) -> (r: Option<String>)
    ensures
        match r {
            Some(e) => path_extension(path@) == Some(e@),
            None => path_extension(path@) is None,
        },
{
    std::path::Path::new(path).extension().map(|e| e.to_string_lossy().into_owned())
}

/// Relies on `mime_guess::from_ext(..).first_or_octet_stream()`: the first
/// MIME type known for an extension, or `application/octet-stream`.
#[verifier::external_body]
fn guess_mime_by_extension(ext: &str) -> (r: String)
    ensures
        r@ == mime_for_extension(ext@),
{
    mime_guess::from_ext(ext).first_or_octet_stream().to_string()
}

/// The MIME type of a file path, inferred from its extension.
pub fn get_mime_by_path(file_path: &str) -> (r: String)
    ensures
        r@ == mime_of_path(file_path@),
{
    match extension_of(file_path) {
        Some(ext) => guess_mime_by_extension(ext.as_str()),
        None => DEFAULT_MIME_TYPE.to_string(),
    }
}

/// The final component of a path, as `std::path::Path::file_name` finds it.
pub uninterp spec fn path_file_name(path: Seq<char>) -> Option<Seq<char>>;

/// Relies on `std::path::Path::file_name`: the final component of the path,
/// if it has one.
#[verifier::external_body]
fn file_name_of(path: &str) -> (r: Option<String>)
    ensures
        match r {
            Some(n) => path_file_name(path@) == Some(n@),
            None => path_file_name(path@) is None,
        },
{
    std::path::Path::new(path).file_name().map(|n| n.to_string_lossy().into_owned())
}

/// The name a file read from a path gets: the given one, or the path's
/// final component.
pub open spec fn name_for_path(path: Seq<char>, file_name: Option<&str>) -> Option<Seq<char>> {
    match file_name {
        Some(n) => Some(n@),
        None => path_file_name(path),
    }
}

/// The MIME type a file read from a path gets: the given one, or the one
/// inferred from the path's extension.
pub open spec fn mime_for_path(path: Seq<char>, mime_type: Option<&str>) -> Seq<char> {
    match mime_type {
        Some(m) => m@,
        None => mime_of_path(path),
    }
}

/// The name of a file read from `file_path`.
pub fn get_name_by_path(file_path: &str, file_name: Option<&str>) -> (r: Option<String>)
    ensures
        match r {
            Some(n) => name_for_path(file_path@, file_name) == Some(n@),
            None => name_for_path(file_path@, file_name) is None,
        },
{
    match file_name {
        Some(n) => Some(n.to_string()),
        None => file_name_of(file_path),
    }
}

/// The MIME type of a file read from `file_path`.
pub fn get_mime_for_path(file_path: &str, mime_type: Option<&str>) -> (r: String)
    ensures
        r@ == mime_for_path(file_path@, mime_type),
{
    match mime_type {
        Some(m) => m.to_string(),
        None => get_mime_by_path(file_path),
    }
}

} // verus!
