//! File IDs, and the opaque tokens that hand them out.
use vstd::prelude::*;

use short_crypt::ShortCrypt;

use crate::file_center_error::FileCenterError;

verus! {

/// The length of a file ID in bytes.
pub const FILE_ID_LEN: usize = 12;

/// The opaque, unique identifier of a stored file: twelve bytes.
#[derive(Debug, Clone, Copy, PartialEq, Eq, Hash)]
pub struct FileId {
    bytes: [u8; 12],
}

impl View for FileId {
    type V = Seq<u8>;

    closed spec fn view(&self) -> Seq<u8> {
        self.bytes@
    }
}

impl FileId {
    /// Every ID holds twelve bytes.
    pub proof fn lemma_len(&self)
        ensures
            self@.len() == FILE_ID_LEN,
    {
    }

    /// The ID made of a four-byte prefix and an eight-byte serial number,
    /// both written most significant byte first.
    pub fn from_parts(prefix: u32, serial: u64) -> (r: FileId)
        ensures
            r@ == seq![
                #[verifier::truncate] ((prefix >> 24u32) as u8),
                #[verifier::truncate] ((prefix >> 16u32) as u8),
                #[verifier::truncate] ((prefix >> 8u32) as u8),
                #[verifier::truncate] (prefix as u8),
                #[verifier::truncate] ((serial >> 56u64) as u8),
                #[verifier::truncate] ((serial >> 48u64) as u8),
                #[verifier::truncate] ((serial >> 40u64) as u8),
                #[verifier::truncate] ((serial >> 32u64) as u8),
                #[verifier::truncate] ((serial >> 24u64) as u8),
                #[verifier::truncate] ((serial >> 16u64) as u8),
                #[verifier::truncate] ((serial >> 8u64) as u8),
                #[verifier::truncate] (serial as u8),
            ],
    {
        let bytes: [u8; 12] = [
            #[verifier::truncate] ((prefix >> 24u32) as u8),
            #[verifier::truncate] ((prefix >> 16u32) as u8),
            #[verifier::truncate] ((prefix >> 8u32) as u8),
            #[verifier::truncate] (prefix as u8),
            #[verifier::truncate] ((serial >> 56u64) as u8),
            #[verifier::truncate] ((serial >> 48u64) as u8),
            #[verifier::truncate] ((serial >> 40u64) as u8),
            #[verifier::truncate] ((serial >> 32u64) as u8),
            #[verifier::truncate] ((serial >> 24u64) as u8),
            #[verifier::truncate] ((serial >> 16u64) as u8),
            #[verifier::truncate] ((serial >> 8u64) as u8),
            #[verifier::truncate] (serial as u8),
        ];
        let r = FileId { bytes };
        assert(r@ =~= seq![
            #[verifier::truncate] ((prefix >> 24u32) as u8),
            #[verifier::truncate] ((prefix >> 16u32) as u8),
            #[verifier::truncate] ((prefix >> 8u32) as u8),
            #[verifier::truncate] (prefix as u8),
            #[verifier::truncate] ((serial >> 56u64) as u8),
            #[verifier::truncate] ((serial >> 48u64) as u8),
            #[verifier::truncate] ((serial >> 40u64) as u8),
            #[verifier::truncate] ((serial >> 32u64) as u8),
            #[verifier::truncate] ((serial >> 24u64) as u8),
            #[verifier::truncate] ((serial >> 16u64) as u8),
            #[verifier::truncate] ((serial >> 8u64) as u8),
            #[verifier::truncate] (serial as u8),
        ]);
        r
    }

    /// The ID made of these twelve bytes.
    pub fn from_bytes(bytes: [u8; 12]) -> (r: FileId)
        ensures
            r@ == bytes@,
    {
        FileId { bytes }
    }

    /// The twelve bytes of this ID.
    pub fn bytes(&self) -> (r: [u8; 12])
        ensures
            r@ == self@,
    {
        self.bytes
    }

    /// Whether two IDs hold the same bytes.
    pub fn equals(&self, other: &FileId) -> (r: bool)
        ensures
            r == (self@ == other@),
    {
        let mut i: usize = 0;
        while i < FILE_ID_LEN
            invariant
                i <= FILE_ID_LEN,
                forall|j: int| 0 <= j < i ==> self.bytes@[j] == other.bytes@[j],
            decreases FILE_ID_LEN - i,
        {
            if self.bytes[i] != other.bytes[i] {
                return false;
            }
            i = i + 1;
        }
        assert(self.bytes@ =~= other.bytes@);
        true
    }
}

/// The file ID that a decoded token holds: it must be exactly twelve bytes.
pub fn file_id_from_raw(raw: &[u8]) -> (r: Result<FileId, FileCenterError>)
    ensures
        raw@.len() == FILE_ID_LEN <==> r is Ok,
        r matches Ok(id) ==> id@ == raw@,
        r matches Err(e) ==> e == FileCenterError::IDTokenError("ID needs to be 12 bytes"),
{
    if raw.len() != FILE_ID_LEN {
        return Err(FileCenterError::IDTokenError("ID needs to be 12 bytes"));
    }
    let mut bytes: [u8; 12] = [0u8; 12];
    let mut i: usize = 0;
    while i < FILE_ID_LEN
        invariant
            raw@.len() == FILE_ID_LEN,
            i <= FILE_ID_LEN,
            forall|j: int| 0 <= j < i ==> bytes@[j] == raw@[j],
        decreases FILE_ID_LEN - i,
    {
        bytes[i] = raw[i];
        i = i + 1;
    }
    assert(bytes@ =~= raw@);
    Ok(FileId { bytes })
}

/// The URL-safe token that short-crypt makes of `data` under `key`.
pub uninterp spec fn url_token(key: Seq<char>, data: Seq<u8>) -> Seq<char>;

/// What short-crypt decodes a URL component to under `key`: the bytes, or
/// `None` where the component is malformed or fails its checksum.
pub uninterp spec fn url_decrypted(key: Seq<char>, token: Seq<char>) -> Option<Seq<u8>>;

/// The character of a decimal digit.
pub open spec fn digit_char(d: nat) -> char {
    (48 + d) as char
}

/// The decimal text of a natural number, without leading zeros.
pub open spec fn decimal_nat(n: nat) -> Seq<char>
    decreases n,
{
    if n < 10 {
        seq![digit_char(n)]
    } else {
        decimal_nat(n / 10) + seq![digit_char(n % 10)]
    }
}

/// The decimal text of an integer, as `i64::to_string` writes it: a minus
/// sign before a negative one.
pub open spec fn decimal_of(n: i64) -> Seq<char> {
    if n < 0 {
        seq!['-'] + decimal_nat((-n) as nat)
    } else {
        decimal_nat(n as nat)
    }
}

/// The key of the token cipher of a file center created at `create_time`.
pub open spec fn cipher_key(create_time: i64) -> Seq<char> {
    "FileCenter-"@ + decimal_of(create_time)
}

/// Relies on `i64::to_string`: the decimal text of the integer.
#[verifier::external_body]
fn decimal_string(n: i64) -> (r: String)
    ensures
        r@ == decimal_of(n),
{
    n.to_string()
}

/// Relies on `ShortCrypt::encrypt_to_url_component`, under the cipher
/// `ShortCrypt::new(key)`: the token of the data.
#[verifier::external_body]
fn encrypt_to_url_component(key: &str, data: &[u8]) -> (r: String)
    ensures
        r@ == url_token(key@, data@),
{
    ShortCrypt::new(key).encrypt_to_url_component(data)
}

/// Relies on `ShortCrypt::encrypt_to_url_component_and_push_to_string`,
/// under the cipher `ShortCrypt::new(key)`: the buffer's text followed by the
/// token of the data (the base character it inserts depends only on the
/// appended part).
#[verifier::external_body]
fn encrypt_to_url_component_and_push(key: &str, data: &[u8], buffer: String) -> (r: String)
    ensures
        r@ == buffer@ + url_token(key@, data@),
{
    ShortCrypt::new(key).encrypt_to_url_component_and_push_to_string(data, buffer)
}

/// Relies on `ShortCrypt::decrypt_url_component`, under the cipher
/// `ShortCrypt::new(key)`: the decoded bytes, or the cipher's message where
/// the component does not decode; a token that the same key made decodes to
/// the data it was made of.
#[verifier::external_body]
fn decrypt_url_component(key: &str, token: &str) -> (r: Result<Vec<u8>, &'static str>)
    ensures
        match r {
            Ok(v) => url_decrypted(key@, token@) == Some(v@),
            Err(_) => url_decrypted(key@, token@) is None,
        },
        r matches Ok(v) ==> forall|d: Seq<u8>| #[trigger] url_token(key@, d) == token@ ==> v@ == d,
        r is Err ==> forall|d: Seq<u8>| #[trigger] url_token(key@, d) != token@,
{
    ShortCrypt::new(key).decrypt_url_component(token)
}

/// Turns file IDs into opaque URL-safe tokens and back, under a key derived
/// from the creation instant of the file center.
#[derive(Debug)]
pub struct IdCipher {
    key: String,
}

impl View for IdCipher {
    type V = Seq<char>;

    /// The cipher's key.
    closed spec fn view(&self) -> Seq<char> {
        self.key@
    }
}

/// What decoding `token` under `key` gives: the file ID of a twelve-byte
/// decoding; an `IDTokenError` for a token that does not decode, or that
/// decodes to any other length; and a token made of twelve bytes under the
/// same key gives the ID of those bytes back.
pub open spec fn decrypt_post(key: Seq<char>, token: Seq<char>, r: Result<FileId, FileCenterError>) -> bool {
    &&& match url_decrypted(key, token) {
        Some(raw) => {
            &&& (raw.len() == FILE_ID_LEN <==> r is Ok)
            &&& (r matches Ok(id) ==> id@ == raw)
            &&& (raw.len() != FILE_ID_LEN ==> r == Err::<FileId, FileCenterError>(
                FileCenterError::IDTokenError("ID needs to be 12 bytes"),
            ))
        },
        None => r matches Err(FileCenterError::IDTokenError(_)),
    }
    &&& forall|d: Seq<u8>|
        #[trigger] url_token(key, d) == token && d.len() == FILE_ID_LEN ==> (r matches Ok(id) && id@ == d)
}

impl IdCipher {
    /// The cipher keyed by a creation instant, in milliseconds.
    pub fn new(create_time_millis: i64) -> (r: IdCipher)
        ensures
            r@ == cipher_key(create_time_millis),
    {
        let mut key = "FileCenter-".to_string();
        let millis = decimal_string(create_time_millis);
        key.append(millis.as_str());
        IdCipher { key }
    }

    /// Decodes a token into a file ID; fails unless it decodes to twelve bytes.
    pub fn decrypt_id_token(&self, id_token: &str) -> (r: Result<FileId, FileCenterError>)
        ensures
            decrypt_post(self@, id_token@, r),
    {
        match decrypt_url_component(self.key.as_str(), id_token) {
            Ok(raw) => file_id_from_raw(raw.as_slice()),
            Err(message) => Err(FileCenterError::IDTokenError(message)),
        }
    }

    /// Encodes a file ID as a token.
    pub fn encrypt_id(&self, id: &FileId) -> (r: String)
        ensures
            r@ == url_token(self@, id@),
    {
        let raw = id.bytes();
        encrypt_to_url_component(self.key.as_str(), raw.as_slice())
    }

    /// Encodes a file ID as a token written after the text in `buffer`.
    pub fn encrypt_id_to_buffer(&self, id: &FileId, buffer: String) -> (r: String)
        ensures
            r@ == buffer@ + url_token(self@, id@),
    {
        let raw = id.bytes();
        encrypt_to_url_component_and_push(self.key.as_str(), raw.as_slice(), buffer)
    }
}

} // verus!
