//! A retrieved file and its metadata.
use vstd::prelude::*;

use crate::file_data::FileData;
use crate::file_id::FileId;

verus! {

/// A file as retrieved from the file center.
#[derive(Debug)]
pub struct FileItem {
    pub file_id: FileId,
    /// Milliseconds since the Unix epoch.
    pub create_time: i64,
    /// When a temporary file expires; `None` for a permanent one.
    pub expire_at: Option<i64>,
    pub mime_type: String,
    pub file_size: u64,
    pub file_name: String,
    pub file_data: FileData,
}

impl FileItem {
    pub fn get_file_id(&self) -> (r: FileId)
        ensures
            r == self.file_id,
    {
        self.file_id
    }

    pub fn get_create_time(&self) -> (r: i64)
        ensures
            r == self.create_time,
    {
        self.create_time
    }

    pub fn get_expiration_time(&self) -> (r: Option<i64>)
        ensures
            r == self.expire_at,
    {
        self.expire_at
    }

    pub fn get_mime_type(&self) -> (r: &str)
        ensures
            r@ == self.mime_type@,
    {
        self.mime_type.as_str()
    }

    pub fn get_file_size(&self) -> (r: u64)
        ensures
            r == self.file_size,
    {
        self.file_size
    }

    pub fn get_file_name(&self) -> (r: &str)
        ensures
            r@ == self.file_name@,
    {
        self.file_name.as_str()
    }

    pub fn into_file_data(self) -> (r: FileData)
        ensures
            r == self.file_data,
    {
        self.file_data
    }
}

} // verus!
