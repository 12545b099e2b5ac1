//! A content-addressed file store: identical content is stored once and
//! reference-counted, large content is split into ordered chunks, and
//! temporary files are handed out at most once.
//!
//! The engine keeps two collections, file records and chunks, and every
//! operation on them is stated and proved over those collections.
use vstd::prelude::*;

pub mod file_center_error;
pub mod functions;
pub mod chunking;
pub mod file_id;
pub mod file_data;
pub mod file_item;
pub mod filters;
pub mod decisions;
pub mod document;
pub mod file_center;
pub mod laws;

pub use chunking::{is_stream_size, join_chunks, split_into_chunks};
pub use decisions::{
    check_file_size_threshold, check_stored_file_size_threshold, check_stored_version, dedup_next,
    dedup_start, ids_missing_from, is_exhausted, must_discard_chunks, retrieval_of, DedupAction, DedupEvent, Retrieval,
};
pub use document::{
    create_file_item, file_exist_projection, file_item_delete_projection, file_item_projection,
    DecodedFile, FieldValue, StoredContent, StoredDocument,
};
pub use file_center::{ChunkRecord, FileCenter, FileRecord, Storage};
pub use file_center_error::{FileCenterError, ValueAccessError};
pub use file_data::{ChunkStream, FileData};
pub use file_id::{file_id_from_raw, FileId, IdCipher};
pub use file_item::FileItem;
pub use functions::{get_hash_by_buffer, get_mime_by_path, separate_hash, HashKey};

verus! {

/// The largest accepted file size threshold, in bytes.
pub const MAX_FILE_SIZE_THRESHOLD: u32 = 16_770_000;

/// The file size threshold of a new file center, in bytes.
pub const DEFAULT_FILE_SIZE_THRESHOLD: u32 = 262_144;

/// How long a temporary file record lives, in milliseconds.
pub const TEMPORARY_LIFE_TIME: i64 = 60000;

/// How long the chunks of a temporary file live, in milliseconds.
pub const TEMPORARY_CHUNK_LIFE_TIME: i64 = 3600000;

/// The newest schema version this library understands.
pub const VERSION: i32 = 2;

/// The MIME type used when none is given or can be inferred.
pub const DEFAULT_MIME_TYPE: &'static str = "application/octet-stream";

/// The default database name, if the connection string names none.
pub const DEFAULT_DATABASE_NAME: &'static str = "test";

/// The name of the collection which stores file records.
pub const COLLECTION_FILES_NAME: &'static str = "file_center";

/// The name of the collection which stores file chunks.
pub const COLLECTION_FILES_CHUNKS_NAME: &'static str = "file_center_chunks";

/// The name of the collection which stores the settings of the file center.
pub const COLLECTION_SETTINGS_NAME: &'static str = "file_center_settings";

/// The settings key of the file size threshold.
pub const SETTING_FILE_SIZE_THRESHOLD: &'static str = "file_size_threshold";

/// The settings key of the creation instant of the file center.
pub const SETTING_CREATE_TIME: &'static str = "create_time";

/// The settings key of the schema version.
pub const SETTING_VERSION: &'static str = "version";

} // verus!
