//! Reading a stored file document into a file's description: which fields
//! must be there, and of which type.
use vstd::prelude::*;

use crate::file_center_error::{FileCenterError, ValueAccessError};
use crate::file_id::FileId;

verus! {

/// A field value of a stored document, as the store hands it out.
#[derive(Debug)]
pub enum FieldValue {
    ObjectId(FileId),
    /// Milliseconds since the Unix epoch.
    DateTime(i64),
    String(String),
    Binary(Vec<u8>),
    Int32(i32),
    Int64(i64),
    /// A value of any other type.
    Other,
}

/// The fields of a stored file document that a retrieval reads; `None`
/// where the field is missing.
#[derive(Debug)]
pub struct StoredDocument {
    pub id: Option<FieldValue>,
    pub create_time: Option<FieldValue>,
    pub expire_at: Option<FieldValue>,
    pub mime_type: Option<FieldValue>,
    pub file_size: Option<FieldValue>,
    pub file_name: Option<FieldValue>,
    pub file_data: Option<FieldValue>,
    pub chunk_id: Option<FieldValue>,
}

/// Where a decoded file's content is.
#[derive(Debug)]
pub enum StoredContent {
    /// In the document.
    Inline(Vec<u8>),
    /// In the chunk collection, under the file's ID.
    Chunked,
}

/// A stored file document, read.
#[derive(Debug)]
pub struct DecodedFile {
    pub file_id: FileId,
    pub create_time: i64,
    pub expire_at: Option<i64>,
    pub mime_type: String,
    pub file_size: u64,
    pub file_name: String,
    pub content: StoredContent,
}

/// Whether a string is a MIME type as the `mime` crate parses one.
pub uninterp spec fn is_mime(s: Seq<char>) -> bool;

/// Relies on `mime::Mime::from_str`: whether the text parses as a MIME type.
#[verifier::external_body]
fn parses_as_mime(s: &str) -> (r: bool)
    ensures
        r == is_mime(s@),
{
    s.parse::<mime::Mime>().is_ok()
}

/// The error a required field gives: missing, or of the wrong type.
pub open spec fn field_error(f: Option<FieldValue>) -> ValueAccessError {
    if f is None {
        ValueAccessError::NotPresent
    } else {
        ValueAccessError::UnexpectedType
    }
}

/// The field holds an object ID.
pub open spec fn is_object_id(f: Option<FieldValue>) -> bool {
    f matches Some(FieldValue::ObjectId(_))
}

/// The field holds an instant.
pub open spec fn is_date_time(f: Option<FieldValue>) -> bool {
    f matches Some(FieldValue::DateTime(_))
}

/// The field holds a string.
pub open spec fn is_string(f: Option<FieldValue>) -> bool {
    f matches Some(FieldValue::String(_))
}

/// The field holds a MIME type.
pub open spec fn is_mime_field(f: Option<FieldValue>) -> bool {
    f matches Some(FieldValue::String(s)) && is_mime(s@)
}

/// The field holds a 64-bit integer.
pub open spec fn is_int64(f: Option<FieldValue>) -> bool {
    f matches Some(FieldValue::Int64(_))
}

/// The optional expiry field is missing or holds an instant.
pub open spec fn expiry_ok(f: Option<FieldValue>) -> bool {
    f is None || is_date_time(f)
}

/// The content fields are readable: inline bytes, or else a chunk reference.
pub open spec fn content_ok(data: Option<FieldValue>, chunk_id: Option<FieldValue>) -> bool {
    match data {
        Some(FieldValue::Binary(_)) => true,
        Some(_) => false,
        None => is_object_id(chunk_id),
    }
}

/// The error of the first unreadable field, in the order ID, creation
/// instant, expiry, MIME type, size, name, content.
pub open spec fn first_error(d: StoredDocument) -> ValueAccessError {
    if !is_object_id(d.id) {
        field_error(d.id)
    } else if !is_date_time(d.create_time) {
        field_error(d.create_time)
    } else if !expiry_ok(d.expire_at) {
        ValueAccessError::UnexpectedType
    } else if !is_mime_field(d.mime_type) {
        field_error(d.mime_type)
    } else if !is_int64(d.file_size) {
        field_error(d.file_size)
    } else if !is_string(d.file_name) {
        field_error(d.file_name)
    } else if d.file_data is Some {
        ValueAccessError::UnexpectedType
    } else {
        field_error(d.chunk_id)
    }
}

/// Every field that a retrieval reads is readable.
pub open spec fn readable(d: StoredDocument) -> bool {
    &&& is_object_id(d.id)
    &&& is_date_time(d.create_time)
    &&& expiry_ok(d.expire_at)
    &&& is_mime_field(d.mime_type)
    &&& is_int64(d.file_size)
    &&& is_string(d.file_name)
    &&& content_ok(d.file_data, d.chunk_id)
}

/// `f` is the reading of document `d`.
pub open spec fn decodes_to(d: StoredDocument, f: DecodedFile) -> bool {
    &&& d.id == Some(FieldValue::ObjectId(f.file_id))
    &&& d.create_time == Some(FieldValue::DateTime(f.create_time))
    &&& match d.expire_at {
        Some(FieldValue::DateTime(e)) => f.expire_at == Some(e),
        _ => f.expire_at is None,
    }
    &&& (d.mime_type matches Some(FieldValue::String(s)) && s@ == f.mime_type@)
    &&& (d.file_size matches Some(FieldValue::Int64(n)) && f.file_size == #[verifier::truncate] (n as u64))
    &&& (d.file_name matches Some(FieldValue::String(s)) && s@ == f.file_name@)
    &&& match d.file_data {
        Some(FieldValue::Binary(b)) => f.content matches StoredContent::Inline(c) && c@ == b@,
        _ => f.content is Chunked,
    }
}

/// Reads a stored file document. It fails on the first field that is
/// missing or of the wrong type, in the order of `first_error`.
pub fn create_file_item(document: StoredDocument) -> (r: Result<DecodedFile, FileCenterError>)
    ensures
        readable(document) <==> r is Ok,
        r matches Ok(f) ==> decodes_to(document, f),
        r matches Err(e) ==> e == FileCenterError::DocumentError(first_error(document)),
{
    let StoredDocument { id, create_time, expire_at, mime_type, file_size, file_name, file_data, chunk_id } =
        document;
    let file_id = match id {
        Some(FieldValue::ObjectId(b)) => b,
        None => return Err(FileCenterError::DocumentError(ValueAccessError::NotPresent)),
        _ => return Err(FileCenterError::DocumentError(ValueAccessError::UnexpectedType)),
    };
    let create_time = match create_time {
        Some(FieldValue::DateTime(b)) => b,
        None => return Err(FileCenterError::DocumentError(ValueAccessError::NotPresent)),
        _ => return Err(FileCenterError::DocumentError(ValueAccessError::UnexpectedType)),
    };
    let expire_at = match expire_at {
        None => None,
        Some(FieldValue::DateTime(b)) => Some(b),
        _ => return Err(FileCenterError::DocumentError(ValueAccessError::UnexpectedType)),
    };
    let mime_type = match mime_type {
        Some(FieldValue::String(b)) => {
            if !parses_as_mime(b.as_str()) {
                return Err(FileCenterError::DocumentError(ValueAccessError::UnexpectedType));
            }
            b
        },
        None => return Err(FileCenterError::DocumentError(ValueAccessError::NotPresent)),
        _ => return Err(FileCenterError::DocumentError(ValueAccessError::UnexpectedType)),
    };
    let file_size = match file_size {
        Some(FieldValue::Int64(n)) => n as u64,
        None => return Err(FileCenterError::DocumentError(ValueAccessError::NotPresent)),
        _ => return Err(FileCenterError::DocumentError(ValueAccessError::UnexpectedType)),
    };
    let file_name = match file_name {
        Some(FieldValue::String(b)) => b,
        None => return Err(FileCenterError::DocumentError(ValueAccessError::NotPresent)),
        _ => return Err(FileCenterError::DocumentError(ValueAccessError::UnexpectedType)),
    };
    let content = match file_data {
        Some(FieldValue::Binary(b)) => StoredContent::Inline(b),
        Some(_) => return Err(FileCenterError::DocumentError(ValueAccessError::UnexpectedType)),
        None => match chunk_id {
            Some(FieldValue::ObjectId(_)) => StoredContent::Chunked,
            None => return Err(FileCenterError::DocumentError(ValueAccessError::NotPresent)),
            _ => return Err(FileCenterError::DocumentError(ValueAccessError::UnexpectedType)),
        },
    };
    Ok(DecodedFile { file_id, create_time, expire_at, mime_type, file_size, file_name, content })
}

/// The fields a retrieval reads, each with `1` to include it.
pub fn file_item_projection() -> (r: Vec<(&'static str, i32)>)
    ensures
        r@ == seq![
            ("_id", 1i32),
            ("create_time", 1i32),
            ("mime_type", 1i32),
            ("file_size", 1i32),
            ("file_name", 1i32),
            ("file_data", 1i32),
            ("chunk_id", 1i32),
            ("expire_at", 1i32),
        ],
{
    let r = vec![
        ("_id", 1i32),
        ("create_time", 1i32),
        ("mime_type", 1i32),
        ("file_size", 1i32),
        ("file_name", 1i32),
        ("file_data", 1i32),
        ("chunk_id", 1i32),
        ("expire_at", 1i32),
    ];
    assert(r@ =~= seq![
        ("_id", 1i32),
        ("create_time", 1i32),
        ("mime_type", 1i32),
        ("file_size", 1i32),
        ("file_name", 1i32),
        ("file_data", 1i32),
        ("chunk_id", 1i32),
        ("expire_at", 1i32),
    ]);
    r
}

/// The fields an existence probe reads: the ID alone.
pub fn file_exist_projection() -> (r: Vec<(&'static str, i32)>)
    ensures
        r@ == seq![("_id", 1i32)],
{
    let r = vec![("_id", 1i32)];
    assert(r@ =~= seq![("_id", 1i32)]);
    r
}

/// The fields a deletion reads back: the count, the chunk reference and the
/// size, without the ID.
pub fn file_item_delete_projection() -> (r: Vec<(&'static str, i32)>)
    ensures
        r@ == seq![("_id", 0i32), ("count", 1i32), ("chunk_id", 1i32), ("file_size", 1i32)],
{
    let r = vec![("_id", 0i32), ("count", 1i32), ("chunk_id", 1i32), ("file_size", 1i32)];
    assert(r@ =~= seq![("_id", 0i32), ("count", 1i32), ("chunk_id", 1i32), ("file_size", 1i32)]);
    r
}

} // verus!
