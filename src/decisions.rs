//! The decisions of the file center, as functions of plain values, for a
//! driver that keeps the collections in a document store and performs each
//! step there.
use vstd::prelude::*;

use crate::file_center_error::FileCenterError;
use crate::file_id::FileId;
use crate::functions::HashKey;
use crate::{MAX_FILE_SIZE_THRESHOLD, VERSION};

verus! {

/// Accepts a file size threshold in `1..=MAX_FILE_SIZE_THRESHOLD`.
pub fn check_file_size_threshold(file_size_threshold: u32) -> (r: Result<u32, FileCenterError>)
    ensures
        (0 < file_size_threshold <= MAX_FILE_SIZE_THRESHOLD) <==> r is Ok,
        r matches Ok(t) ==> t == file_size_threshold,
        r matches Err(e) ==> e is FileSizeThresholdError,
{
    if file_size_threshold > MAX_FILE_SIZE_THRESHOLD || file_size_threshold == 0 {
        Err(FileCenterError::FileSizeThresholdError)
    } else {
        Ok(file_size_threshold)
    }
}

/// Accepts the threshold found in the settings collection, which is stored
/// as a signed 32-bit integer.
pub fn check_stored_file_size_threshold(value: i32) -> (r: Result<u32, FileCenterError>)
    ensures
        (0 < value <= MAX_FILE_SIZE_THRESHOLD) <==> r is Ok,
        r matches Ok(t) ==> t == value,
        r matches Err(e) ==> e is FileSizeThresholdError,
{
    if value <= 0 {
        return Err(FileCenterError::FileSizeThresholdError);
    }
    check_file_size_threshold(value as u32)
}

/// Accepts the schema version found in the settings collection: it must be
/// positive and no newer than `VERSION`.
pub fn check_stored_version(value: i32) -> (r: Result<i32, FileCenterError>)
    ensures
        value <= 0 ==> (r matches Err(e) && e is VersionError),
        value > VERSION ==> (r matches Err(FileCenterError::DatabaseTooNewError {
            supported_latest,
            current,
        }) && supported_latest == VERSION && current == value),
        0 < value <= VERSION ==> (r matches Ok(v) && v == value),
{
    if value <= 0 {
        return Err(FileCenterError::VersionError);
    }
    if value > VERSION {
        return Err(FileCenterError::DatabaseTooNewError { supported_latest: VERSION, current: value });
    }
    Ok(value)
}

/// What a retrieval does with a record it found.
#[derive(Debug, Clone, Copy, PartialEq, Eq, Structural)]
pub enum Retrieval {
    /// A permanent file: hand it out and keep it.
    Return,
    /// A temporary file not yet expired: remove it and hand it out.
    ConsumeAndReturn,
    /// An expired temporary file: remove it and report it missing.
    ConsumeExpired,
}

/// The retrieval rule for a record with this expiry instant, at `now`.
pub open spec fn retrieval_rule(expire_at: Option<i64>, now: i64) -> Retrieval {
    match expire_at {
        None => Retrieval::Return,
        Some(e) => if now > e {
            Retrieval::ConsumeExpired
        } else {
            Retrieval::ConsumeAndReturn
        },
    }
}

/// Decides what a retrieval does with a record that expires at `expire_at`.
pub fn retrieval_of(expire_at: Option<i64>, now: i64) -> (r: Retrieval)
    ensures
        r == retrieval_rule(expire_at, now),
{
    match expire_at {
        None => Retrieval::Return,
        Some(e) => if now > e {
            Retrieval::ConsumeExpired
        } else {
            Retrieval::ConsumeAndReturn
        },
    }
}

/// Whether a record whose count has just been decremented to `count` must
/// be removed.
pub fn is_exhausted(count: i64) -> (r: bool)
    ensures
        r == (count <= 0),
{
    count <= 0
}

/// Some ID of the list holds these bytes.
pub open spec fn id_listed(ids: Seq<FileId>, id: Seq<u8>) -> bool {
    exists|k: int| 0 <= k < ids.len() && (#[trigger] ids[k])@ == id
}

/// Whether some ID of the list equals `id`.
pub fn list_contains(ids: &Vec<FileId>, id: &FileId) -> (r: bool)
    ensures
        r == id_listed(ids@, id@),
{
    let mut k: usize = 0;
    while k < ids.len()
        invariant
            k <= ids@.len(),
            forall|m: int| 0 <= m < k ==> (#[trigger] ids@[m])@ != id@,
        decreases ids@.len() - k,
    {
        if ids[k].equals(id) {
            return true;
        }
        k = k + 1;
    }
    false
}

/// The IDs of `ids` that `present` lacks, each once: the set difference
/// that a garbage-collection pass deletes.
pub fn ids_missing_from(ids: &Vec<FileId>, present: &Vec<FileId>) -> (r: Vec<FileId>)
    ensures
        forall|k: int|
            0 <= k < r@.len() ==> id_listed(ids@, (#[trigger] r@[k])@) && !id_listed(
                present@,
                r@[k]@,
            ),
        forall|k: int|
            0 <= k < ids@.len() && !id_listed(present@, (#[trigger] ids@[k])@) ==> id_listed(
                r@,
                ids@[k]@,
            ),
        forall|a: int, b: int| 0 <= a < b < r@.len() ==> (#[trigger] r@[a])@ != (#[trigger] r@[b])@,
{
    let mut out: Vec<FileId> = Vec::new();
    let mut i: usize = 0;
    while i < ids.len()
        invariant
            i <= ids@.len(),
            forall|k: int|
                0 <= k < out@.len() ==> id_listed(ids@, (#[trigger] out@[k])@) && !id_listed(
                    present@,
                    out@[k]@,
                ),
            forall|k: int|
                0 <= k < i && !id_listed(present@, (#[trigger] ids@[k])@) ==> id_listed(
                    out@,
                    ids@[k]@,
                ),
            forall|a: int, b: int|
                0 <= a < b < out@.len() ==> (#[trigger] out@[a])@ != (#[trigger] out@[b])@,
        decreases ids@.len() - i,
    {
        let id = ids[i];
        if !list_contains(present, &id) && !list_contains(&out, &id) {
            let ghost before = out@;
            out.push(id);
            assert forall|k: int| 0 <= k < i && !id_listed(present@, (#[trigger] ids@[k])@) implies id_listed(
                out@,
                ids@[k]@,
            ) by {
                let m = choose|m: int| 0 <= m < before.len() && (#[trigger] before[m])@ == ids@[k]@;
                assert(out@[m] == before[m]);
            }
            assert(out@[out@.len() - 1] == id);
            assert(id_listed(ids@, id@)) by {
                assert(ids@[i as int] == id);
            }
        } else {
            proof {
                if !id_listed(present@, id@) {
                    assert(id_listed(out@, id@));
                }
            }
        }
        proof {
            assert(ids@[i as int] == id);
        }
        i = i + 1;
    }
    out
}

/// What a permanent put reports to its driver after each store operation.
#[derive(Debug, Clone, Copy)]
pub enum DedupEvent {
    /// The find-and-increment matched a record, whose ID this is.
    Incremented(FileId),
    /// The find-and-increment matched no record.
    NoMatch,
    /// The new record was inserted.
    Inserted,
    /// The insert hit the uniqueness constraint on the dedup key: another
    /// put inserted the same content first.
    DuplicateKey,
}

/// The next store operation of a permanent put.
#[derive(Debug, Clone, Copy)]
pub enum DedupAction {
    /// Atomically find the record with the dedup key and add one to its count.
    FindAndIncrement,
    /// Insert the new record under the put's own ID.
    Insert,
    /// The put is done; this is the ID it returns.
    Done(FileId),
}

/// The insert-or-join rule: a match ends the put with the matched ID; no
/// match leads to an insert; a successful insert ends it with the new ID;
/// an insert that lost the race goes back to find-and-increment.
pub open spec fn dedup_rule(new_id: FileId, event: DedupEvent) -> DedupAction {
    match event {
        DedupEvent::Incremented(id) => DedupAction::Done(id),
        DedupEvent::NoMatch => DedupAction::Insert,
        DedupEvent::Inserted => DedupAction::Done(new_id),
        DedupEvent::DuplicateKey => DedupAction::FindAndIncrement,
    }
}

/// The first store operation of a permanent put.
pub fn dedup_start() -> (r: DedupAction)
    ensures
        r == DedupAction::FindAndIncrement,
{
    DedupAction::FindAndIncrement
}

/// The next store operation of a permanent put whose own new ID is
/// `new_id`, after `event`.
pub fn dedup_next(new_id: FileId, event: DedupEvent) -> (r: DedupAction)
    ensures
        r == dedup_rule(new_id, event),
{
    match event {
        DedupEvent::Incremented(id) => DedupAction::Done(id),
        DedupEvent::NoMatch => DedupAction::Insert,
        DedupEvent::Inserted => DedupAction::Done(new_id),
        DedupEvent::DuplicateKey => DedupAction::FindAndIncrement,
    }
}

/// Whether a finished put must remove the chunks it wrote under its own new
/// ID: it wrote some, and it ended by joining another file.
pub fn must_discard_chunks(wrote_chunks: bool, done: &FileId, new_id: &FileId) -> (r: bool)
    ensures
        r == (wrote_chunks && done@ != new_id@),
{
    wrote_chunks && !done.equals(new_id)
}

/// The part of the record collection that the dedup protocol touches: for
/// each dedup key, the ID and the count of the record that holds it.
pub type KeyIndex = Map<HashKey, (FileId, int)>;

/// The store's atomic find-and-increment on the dedup key.
pub open spec fn find_and_increment(m: KeyIndex, key: HashKey) -> (KeyIndex, DedupEvent) {
    if m.contains_key(key) {
        (m.insert(key, (m[key].0, m[key].1 + 1)), DedupEvent::Incremented(m[key].0))
    } else {
        (m, DedupEvent::NoMatch)
    }
}

/// The store's insert under the unique dedup key.
pub open spec fn insert_with_key(m: KeyIndex, key: HashKey, id: FileId) -> (KeyIndex, DedupEvent) {
    if m.contains_key(key) {
        (m, DedupEvent::DuplicateKey)
    } else {
        (m.insert(key, (id, 1)), DedupEvent::Inserted)
    }
}

} // verus!
