//! The file center: its two collections, the operations on them, and what
//! each operation does to them, stated over the collections themselves.
use vstd::prelude::*;
use vstd::slice::slice_to_vec;

use crate::chunking::{
    goes_to_chunks, is_chunking, is_stream_size, join_chunks, joined, lemma_joined_push, lemma_views_push,
    split_into_chunks, views, ChunkWriter,
};
use crate::decisions::{check_file_size_threshold, is_exhausted, retrieval_of, Retrieval};
use crate::file_center_error::FileCenterError;
use crate::file_data::{ChunkStream, FileData};
use crate::file_id::{cipher_key, decrypt_post, url_token, FileId, IdCipher};
use crate::file_item::FileItem;
use crate::filters::{lemma_filter_absorb, lemma_filter_all, lemma_filter_none, lemma_in_filter};
use crate::functions::{
    get_hash_by_buffer, get_mime_for_path, get_name_by_path, hash_key_of, mime_for_path, name_for_path,
    HashKey,
};
use crate::{
    DEFAULT_FILE_SIZE_THRESHOLD, DEFAULT_MIME_TYPE, MAX_FILE_SIZE_THRESHOLD, TEMPORARY_CHUNK_LIFE_TIME,
    TEMPORARY_LIFE_TIME,
};

verus! {

/// Where the content of a file record is kept.
#[derive(Debug)]
pub enum Storage {
    /// In the record itself.
    Inline(Vec<u8>),
    /// In the chunk collection, under the record's ID.
    Chunked,
}

/// One stored file: its metadata and where its content is.
#[derive(Debug)]
pub struct FileRecord {
    pub id: FileId,
    /// The dedup key; present for permanent files only.
    pub hash: Option<HashKey>,
    pub file_size: u64,
    pub file_name: String,
    pub mime_type: String,
    /// Milliseconds since the Unix epoch.
    pub create_time: i64,
    /// Present for temporary files only.
    pub expire_at: Option<i64>,
    /// The reference count.
    pub count: i64,
    pub storage: Storage,
}

/// One chunk of a chunked file.
#[derive(Debug)]
pub struct ChunkRecord {
    pub file_id: FileId,
    /// The zero-based position of the chunk in its file.
    pub n: u64,
    pub data: Vec<u8>,
    pub expire_at: Option<i64>,
}

/// The state of a file center: its two collections and its threshold.
pub struct CenterView {
    pub records: Seq<FileRecord>,
    pub chunks: Seq<ChunkRecord>,
    pub threshold: u32,
}

/// Some record has this ID.
pub open spec fn has_record(records: Seq<FileRecord>, id: Seq<u8>) -> bool {
    exists|i: int| 0 <= i < records.len() && (#[trigger] records[i]).id@ == id
}

/// Some chunk belongs to this ID.
pub open spec fn has_chunk(chunks: Seq<ChunkRecord>, id: Seq<u8>) -> bool {
    exists|j: int| 0 <= j < chunks.len() && (#[trigger] chunks[j]).file_id@ == id
}

/// Some record holds this dedup key.
pub open spec fn has_hash(records: Seq<FileRecord>, key: HashKey) -> bool {
    exists|i: int| 0 <= i < records.len() && (#[trigger] records[i]).hash == Some(key)
}

/// The position of the record with this ID.
pub open spec fn index_of(records: Seq<FileRecord>, id: Seq<u8>) -> int {
    choose|i: int| 0 <= i < records.len() && (#[trigger] records[i]).id@ == id
}

/// The position of the record with this dedup key.
pub open spec fn index_of_hash(records: Seq<FileRecord>, key: HashKey) -> int {
    choose|i: int| 0 <= i < records.len() && (#[trigger] records[i]).hash == Some(key)
}

/// Keeps the chunks that belong to this ID.
pub open spec fn owned_by(id: Seq<u8>) -> spec_fn(ChunkRecord) -> bool {
    |c: ChunkRecord| c.file_id@ == id
}

/// The chunks of one file, in stored order.
pub open spec fn chunks_of(chunks: Seq<ChunkRecord>, id: Seq<u8>) -> Seq<ChunkRecord> {
    chunks.filter(owned_by(id))
}

/// The bytes of each chunk.
pub open spec fn chunk_bytes(cs: Seq<ChunkRecord>) -> Seq<Seq<u8>> {
    cs.map_values(|c: ChunkRecord| c.data@)
}

/// The content that a record stands for in a state.
pub open spec fn content_of(v: CenterView, r: FileRecord) -> Seq<u8> {
    match r.storage {
        Storage::Inline(b) => b@,
        Storage::Chunked => joined(chunk_bytes(chunks_of(v.chunks, r.id@))),
    }
}

/// The record with a new reference count.
pub open spec fn with_count(r: FileRecord, count: i64) -> FileRecord {
    FileRecord { count, ..r }
}

/// The MIME type a put stores: the given one, or the default.
pub open spec fn mime_or_default(mime_type: Option<&str>) -> Seq<char> {
    match mime_type {
        Some(m) => m@,
        None => DEFAULT_MIME_TYPE@,
    }
}

/// `now + life`, or the largest instant where that overflows.
pub open spec fn expiry_after(now: i64, life: i64) -> i64 {
    if now > i64::MAX - life {
        i64::MAX
    } else {
        (now + life) as i64
    }
}

/// The ID is used by no record and no chunk.
pub open spec fn id_is_fresh(v: CenterView, id: Seq<u8>) -> bool {
    !has_record(v.records, id) && !has_chunk(v.chunks, id)
}

/// Record IDs are unique, and so are dedup keys among the records that hold
/// one.
pub open spec fn records_unique(records: Seq<FileRecord>) -> bool {
    &&& forall|i: int, j: int|
        0 <= i < records.len() && 0 <= j < records.len() && i != j
            ==> (#[trigger] records[i]).id@ != (#[trigger] records[j]).id@
    &&& forall|i: int, j: int|
        0 <= i < records.len() && 0 <= j < records.len() && i != j
            && (#[trigger] records[i]).hash is Some ==> records[i].hash != (#[trigger] records[j]).hash
}

/// The chunks of every file are stored in the order of their numbers, which
/// run from zero without gaps: reading them in stored order reads them
/// sorted by number.
pub open spec fn chunks_numbered(chunks: Seq<ChunkRecord>) -> bool {
    forall|id: Seq<u8>, k: int|
        0 <= k < chunks_of(chunks, id).len() ==> (#[trigger] chunks_of(chunks, id)[k]).n == k
}

/// The state's invariant: a valid threshold, unique record IDs and dedup
/// keys, and chunks stored in the order of their numbers.
pub open spec fn wf(v: CenterView) -> bool {
    &&& 0 < v.threshold <= MAX_FILE_SIZE_THRESHOLD
    &&& records_unique(v.records)
    &&& chunks_numbered(v.chunks)
}

/// Keeping or dropping chunks by their owner alone keeps a file's chunks
/// whole, or drops them all.
pub proof fn lemma_chunks_of_filter_by_owner(
    c: Seq<ChunkRecord>,
    keep: spec_fn(ChunkRecord) -> bool,
    id: Seq<u8>,
    b: bool,
)
    requires
        forall|i: int| 0 <= i < c.len() && (#[trigger] c[i]).file_id@ == id ==> keep(c[i]) == b,
    ensures
        chunks_of(c.filter(keep), id) == if b {
            chunks_of(c, id)
        } else {
            Seq::<ChunkRecord>::empty()
        },
{
    if b {
        assert forall|i: int| 0 <= i < c.len() && owned_by(id)(#[trigger] c[i]) implies keep(c[i]) by {}
        lemma_filter_absorb(c, keep, owned_by(id));
    } else {
        let f = c.filter(keep);
        assert forall|k: int| 0 <= k < f.len() implies !owned_by(id)(#[trigger] f[k]) by {
            lemma_in_filter(c, keep, k);
        }
        lemma_filter_none(f, owned_by(id));
    }
}

/// Keeping chunks by their owner alone keeps them in number order.
pub proof fn lemma_numbered_filter_by_owner(
    c: Seq<ChunkRecord>,
    keep: spec_fn(ChunkRecord) -> bool,
    by_owner: spec_fn(Seq<u8>) -> bool,
)
    requires
        chunks_numbered(c),
        forall|x: ChunkRecord| #[trigger] keep(x) == by_owner(x.file_id@),
    ensures
        chunks_numbered(c.filter(keep)),
{
    assert forall|id: Seq<u8>, k: int| 0 <= k < chunks_of(c.filter(keep), id).len() implies (
    #[trigger] chunks_of(c.filter(keep), id)[k]).n == k by {
        lemma_chunks_of_filter_by_owner(c, keep, id, by_owner(id));
    }
}

/// Appending the chunks of a new file, numbered from zero, keeps the chunks
/// in number order.
pub proof fn lemma_numbered_append(c0: Seq<ChunkRecord>, added: Seq<ChunkRecord>, new_id: Seq<u8>)
    requires
        chunks_numbered(c0),
        !has_chunk(c0, new_id),
        forall|j: int| 0 <= j < added.len() ==> (#[trigger] added[j]).file_id@ == new_id && added[j].n == j,
    ensures
        chunks_numbered(c0 + added),
{
    assert forall|id: Seq<u8>, k: int| 0 <= k < chunks_of(c0 + added, id).len() implies (
    #[trigger] chunks_of(c0 + added, id)[k]).n == k by {
        Seq::filter_distributes_over_add(c0, added, owned_by(id));
        if id == new_id {
            assert forall|i: int| 0 <= i < c0.len() implies !owned_by(id)(#[trigger] c0[i]) by {
                if owned_by(id)(c0[i]) {
                    assert(has_chunk(c0, new_id));
                }
            }
            lemma_filter_none(c0, owned_by(id));
            assert forall|i: int| 0 <= i < added.len() implies owned_by(id)(#[trigger] added[i]) by {}
            lemma_filter_all(added, owned_by(id));
            assert(chunks_of(c0 + added, id) =~= added);
        } else {
            assert forall|i: int| 0 <= i < added.len() implies !owned_by(id)(#[trigger] added[i]) by {}
            lemma_filter_none(added, owned_by(id));
            assert(chunks_of(c0 + added, id) =~= chunks_of(c0, id));
        }
    }
}

/// `r` is the record that a put creates.
pub open spec fn is_new_record(
    r: FileRecord,
    id: Seq<u8>,
    hash: Option<HashKey>,
    content: Seq<u8>,
    name: Seq<char>,
    mime: Seq<char>,
    now: i64,
    expire_at: Option<i64>,
    threshold: u32,
) -> bool {
    &&& r.id@ == id
    &&& r.hash == hash
    &&& r.file_size == content.len()
    &&& r.file_name@ == name
    &&& r.mime_type@ == mime
    &&& r.create_time == now
    &&& r.expire_at == expire_at
    &&& r.count == 1
    &&& if goes_to_chunks(content.len(), threshold as nat) {
        r.storage is Chunked
    } else {
        (r.storage matches Storage::Inline(b) && b@ == content)
    }
}

/// `added` are the chunks that a put writes for content under a threshold.
pub open spec fn are_new_chunks(
    added: Seq<ChunkRecord>,
    id: Seq<u8>,
    content: Seq<u8>,
    threshold: u32,
    expire_at: Option<i64>,
) -> bool {
    &&& is_chunking(chunk_bytes(added), content, threshold as nat)
    &&& forall|j: int|
        0 <= j < added.len() ==> (#[trigger] added[j]).file_id@ == id && added[j].n == j
            && added[j].expire_at == expire_at
}

/// `v1` is `v0` with one new file inserted, its chunks appended where the
/// content is larger than the threshold.
pub open spec fn inserted(
    v0: CenterView,
    v1: CenterView,
    id: Seq<u8>,
    hash: Option<HashKey>,
    content: Seq<u8>,
    name: Seq<char>,
    mime: Seq<char>,
    now: i64,
    expire_at: Option<i64>,
    chunk_expire_at: Option<i64>,
) -> bool {
    &&& v1.threshold == v0.threshold
    &&& v1.records.len() == v0.records.len() + 1
    &&& v1.records.subrange(0, v0.records.len() as int) == v0.records
    &&& is_new_record(
        v1.records.last(),
        id,
        hash,
        content,
        name,
        mime,
        now,
        expire_at,
        v0.threshold,
    )
    &&& v1.chunks.len() >= v0.chunks.len()
    &&& v1.chunks.subrange(0, v0.chunks.len() as int) == v0.chunks
    &&& if goes_to_chunks(content.len(), v0.threshold as nat) {
        are_new_chunks(
            v1.chunks.subrange(v0.chunks.len() as int, v1.chunks.len() as int),
            id,
            content,
            v0.threshold,
            chunk_expire_at,
        )
    } else {
        v1.chunks == v0.chunks
    }
}

/// What a permanent put does: join the record that holds the same content,
/// or insert a new one under `new_id`.
pub open spec fn put_post(
    v0: CenterView,
    v1: CenterView,
    content: Seq<u8>,
    name: Seq<char>,
    mime: Seq<char>,
    now: i64,
    new_id: Seq<u8>,
    r: Result<FileId, FileCenterError>,
) -> bool {
    let key = hash_key_of(content);
    if has_hash(v0.records, key) {
        let i = index_of_hash(v0.records, key);
        if v0.records[i].count == i64::MAX {
            (r matches Err(FileCenterError::MongoDBError(_))) && v1 == v0
        } else {
            &&& (r matches Ok(id) && id@ == v0.records[i].id@)
            &&& v1.records == v0.records.update(i, with_count(v0.records[i], (v0.records[i].count + 1) as i64))
            &&& v1.chunks == v0.chunks
            &&& v1.threshold == v0.threshold
        }
    } else if !id_is_fresh(v0, new_id) {
        (r matches Err(FileCenterError::MongoDBError(_))) && v1 == v0
    } else {
        &&& (r matches Ok(id) && id@ == new_id)
        &&& inserted(v0, v1, new_id, Some(key), content, name, mime, now, None, None)
    }
}

/// What a temporary put does: insert a new record under `new_id`, never
/// joining another, which expires a short while after `now`.
pub open spec fn temporary_put_post(
    v0: CenterView,
    v1: CenterView,
    content: Seq<u8>,
    name: Seq<char>,
    mime: Seq<char>,
    now: i64,
    new_id: Seq<u8>,
    r: Result<FileId, FileCenterError>,
) -> bool {
    if !id_is_fresh(v0, new_id) {
        (r matches Err(FileCenterError::MongoDBError(_))) && v1 == v0
    } else {
        &&& (r matches Ok(id) && id@ == new_id)
        &&& inserted(
            v0,
            v1,
            new_id,
            None,
            content,
            name,
            mime,
            now,
            Some(expiry_after(now, TEMPORARY_LIFE_TIME)),
            Some(expiry_after(now, TEMPORARY_CHUNK_LIFE_TIME)),
        )
    }
}

/// Keeps the chunks that do not belong to this ID.
pub open spec fn not_owned_by(id: Seq<u8>) -> spec_fn(ChunkRecord) -> bool {
    |c: ChunkRecord| c.file_id@ != id
}

/// `item` presents record `r` of state `v`: its metadata, and its content,
/// inline or as the record's chunks in number order.
pub open spec fn item_matches(item: FileItem, v: CenterView, r: FileRecord) -> bool {
    &&& item.file_id@ == r.id@
    &&& item.create_time == r.create_time
    &&& item.expire_at == r.expire_at
    &&& item.mime_type@ == r.mime_type@
    &&& item.file_size == r.file_size
    &&& item.file_name@ == r.file_name@
    &&& item.file_data.is_valid()
    &&& item.file_data.content() == content_of(v, r)
    &&& (item.file_data is Stream <==> r.storage is Chunked)
    &&& (item.file_data matches FileData::Stream(s) ==> s@ == chunk_bytes(chunks_of(v.chunks, r.id@)))
}

/// What a retrieval does: a missing ID gives nothing; a temporary record is
/// consumed, and gives nothing once its expiry instant has passed.
pub open spec fn get_post(
    v0: CenterView,
    v1: CenterView,
    id: Seq<u8>,
    now: i64,
    r: Result<Option<FileItem>, FileCenterError>,
) -> bool {
    if !has_record(v0.records, id) {
        (r matches Ok(None)) && v1 == v0
    } else {
        let i = index_of(v0.records, id);
        let rec = v0.records[i];
        match rec.expire_at {
            None => v1 == v0 && (r matches Ok(Some(item)) && item_matches(item, v0, rec)),
            Some(e) => {
                &&& v1.records == v0.records.remove(i)
                &&& v1.chunks == v0.chunks
                &&& v1.threshold == v0.threshold
                &&& if now > e {
                    r matches Ok(None)
                } else {
                    r matches Ok(Some(item)) && item_matches(item, v0, rec)
                }
            },
        }
    }
}

/// What a deletion does: decrement the count and report the size; at zero
/// remove the record, and its chunks where it has some.
pub open spec fn delete_post(
    v0: CenterView,
    v1: CenterView,
    id: Seq<u8>,
    r: Result<Option<u64>, FileCenterError>,
) -> bool {
    if !has_record(v0.records, id) {
        (r matches Ok(None)) && v1 == v0
    } else {
        let i = index_of(v0.records, id);
        let rec = v0.records[i];
        if rec.count == i64::MIN {
            (r matches Err(FileCenterError::MongoDBError(_))) && v1 == v0
        } else {
            &&& (r matches Ok(Some(size)) && size == rec.file_size)
            &&& v1.threshold == v0.threshold
            &&& if rec.count - 1 <= 0 {
                &&& v1.records == v0.records.remove(i)
                &&& v1.chunks == if rec.storage is Chunked {
                    v0.chunks.filter(not_owned_by(id))
                } else {
                    v0.chunks
                }
            } else {
                &&& v1.records == v0.records.update(i, with_count(rec, (rec.count - 1) as i64))
                &&& v1.chunks == v0.chunks
            }
        }
    }
}

/// The threshold is in `1..=MAX_FILE_SIZE_THRESHOLD`.
pub open spec fn threshold_ok(t: u32) -> bool {
    0 < t <= MAX_FILE_SIZE_THRESHOLD
}

/// A record that points at chunks of which none exists.
pub open spec fn is_dangling(chunks: Seq<ChunkRecord>, r: FileRecord) -> bool {
    r.storage is Chunked && !has_chunk(chunks, r.id@)
}

/// Keeps the records that are not dangling.
pub open spec fn not_dangling(chunks: Seq<ChunkRecord>) -> spec_fn(FileRecord) -> bool {
    |r: FileRecord| !is_dangling(chunks, r)
}

/// Keeps the records whose count is positive.
pub open spec fn count_positive() -> spec_fn(FileRecord) -> bool {
    |r: FileRecord| r.count > 0
}

/// Some record with this ID has an exhausted count.
pub open spec fn exhausted_owner(records: Seq<FileRecord>, id: Seq<u8>) -> bool {
    exists|i: int| 0 <= i < records.len() && (#[trigger] records[i]).id@ == id && records[i].count <= 0
}

/// Keeps the chunks whose owner is not an exhausted record.
pub open spec fn owner_not_exhausted(records: Seq<FileRecord>) -> spec_fn(ChunkRecord) -> bool {
    |c: ChunkRecord| !exhausted_owner(records, c.file_id@)
}

/// Keeps the chunks whose owner exists.
pub open spec fn owner_exists(records: Seq<FileRecord>) -> spec_fn(ChunkRecord) -> bool {
    |c: ChunkRecord| has_record(records, c.file_id@)
}

/// What garbage collection does, pass by pass: drop the records whose chunks
/// are all missing; drop the records with an exhausted count, and their
/// chunks; drop the chunks whose owner does not exist.
pub open spec fn gc_post(v0: CenterView, v1: CenterView) -> bool {
    let r1 = v0.records.filter(not_dangling(v0.chunks));
    let c2 = v0.chunks.filter(owner_not_exhausted(r1));
    let r2 = r1.filter(count_positive());
    let c3 = c2.filter(owner_exists(r2));
    &&& v1.records == r2
    &&& v1.chunks == c3
    &&& v1.threshold == v0.threshold
}

/// Filtering keeps record IDs and dedup keys unique.
pub proof fn lemma_filter_wf(v: CenterView, p: spec_fn(FileRecord) -> bool)
    requires
        wf(v),
    ensures
        wf(CenterView { records: v.records.filter(p), ..v }),
    decreases v.records.len(),
{
    reveal(Seq::filter);
    if v.records.len() > 0 {
        let rest = CenterView { records: v.records.drop_last(), ..v };
        assert forall|i: int, j: int|
            0 <= i < rest.records.len() && 0 <= j < rest.records.len() && i != j implies (
            #[trigger] rest.records[i]).id@ != (#[trigger] rest.records[j]).id@ by {
            assert(rest.records[i] == v.records[i] && rest.records[j] == v.records[j]);
        }
        assert forall|i: int, j: int|
            0 <= i < rest.records.len() && 0 <= j < rest.records.len() && i != j && (
            #[trigger] rest.records[i]).hash is Some implies rest.records[i].hash != (
            #[trigger] rest.records[j]).hash by {
            assert(rest.records[i] == v.records[i] && rest.records[j] == v.records[j]);
        }
        lemma_filter_wf(rest, p);
        let sub = v.records.drop_last().filter(p);
        let last = v.records.last();
        if p(last) {
            let out = sub.push(last);
            assert(out == v.records.filter(p));
            assert forall|k: int| 0 <= k < sub.len() implies (#[trigger] sub[k]).id@ != last.id@
                && (last.hash is Some ==> sub[k].hash != last.hash) by {
                assert(sub.contains(sub[k]));
                v.records.drop_last().lemma_filter_contains_rev(p, sub[k]);
                let m = choose|m: int| 0 <= m < v.records.drop_last().len() && v.records.drop_last()[m] == sub[k];
                assert(v.records[m] == sub[k]);
                assert(v.records[v.records.len() - 1] == last);
            }
            assert forall|i: int, j: int|
                0 <= i < out.len() && 0 <= j < out.len() && i != j implies (
                #[trigger] out[i]).id@ != (#[trigger] out[j]).id@ by {
                if i < sub.len() && j < sub.len() {
                    assert(out[i] == sub[i] && out[j] == sub[j]);
                }
            }
            assert forall|i: int, j: int|
                0 <= i < out.len() && 0 <= j < out.len() && i != j && (
                #[trigger] out[i]).hash is Some implies out[i].hash != (#[trigger] out[j]).hash by {
                if i < sub.len() && j < sub.len() {
                    assert(out[i] == sub[i] && out[j] == sub[j]);
                }
            }
        }
    }
}

/// A record whose expiry instant has passed at `now`.
pub open spec fn is_expired(r: FileRecord, now: i64) -> bool {
    r.expire_at matches Some(e) && now > e
}

/// Keeps the records that have not expired at `now`.
pub open spec fn not_expired(now: i64) -> spec_fn(FileRecord) -> bool {
    |r: FileRecord| !is_expired(r, now)
}

/// A permanent put from a path that must insert, and has no name to give:
/// no name is given, the path has no final component, and no file holds the
/// content yet.
pub open spec fn lacks_name(v: CenterView, path: Seq<char>, file_name: Option<&str>, content: Seq<u8>) -> bool {
    name_for_path(path, file_name) is None && !has_hash(v.records, hash_key_of(content))
}

/// Relies on `bson::DateTime::now`: the current time in milliseconds since
/// the Unix epoch. Nothing is promised of its value.
#[verifier::external_body]
fn now_millis() -> (r: i64) {
    bson::DateTime::now().timestamp_millis()
}

/// The instant `life` milliseconds after `now`, saturating.
pub fn expiry(now: i64, life: i64) -> (r: i64)
    requires
        life >= 0,
    ensures
        r == expiry_after(now, life),
{
    if now > i64::MAX - life {
        i64::MAX
    } else {
        now + life
    }
}

/// A store of files, deduplicated by content and reference-counted.
#[derive(Debug)]
pub struct FileCenter {
    records: Vec<FileRecord>,
    chunks: Vec<ChunkRecord>,
    file_size_threshold: u32,
    cipher: IdCipher,
    id_prefix: u32,
    next_serial: u64,
}

impl View for FileCenter {
    type V = CenterView;

    closed spec fn view(&self) -> CenterView {
        CenterView {
            records: self.records@,
            chunks: self.chunks@,
            threshold: self.file_size_threshold,
        }
    }
}

impl FileCenter {
    /// The position of the record with this ID, if there is one.
    fn find_by_id(&self, id: &FileId) -> (r: Option<usize>)
        ensures
            match r {
                Some(i) => i < self@.records.len() && self@.records[i as int].id@ == id@,
                None => !has_record(self@.records, id@),
            },
    {
        let mut i: usize = 0;
        while i < self.records.len()
            invariant
                i <= self.records@.len(),
                forall|k: int| 0 <= k < i ==> (#[trigger] self.records@[k]).id@ != id@,
            decreases self.records@.len() - i,
        {
            if self.records[i].id.equals(id) {
                return Some(i);
            }
            i = i + 1;
        }
        None
    }

    /// The position of the record with this dedup key, if there is one.
    fn find_by_hash(&self, key: HashKey) -> (r: Option<usize>)
        ensures
            match r {
                Some(i) => i < self@.records.len() && self@.records[i as int].hash == Some(key),
                None => !has_hash(self@.records, key),
            },
    {
        let mut i: usize = 0;
        while i < self.records.len()
            invariant
                i <= self.records@.len(),
                forall|k: int| 0 <= k < i ==> (#[trigger] self.records@[k]).hash != Some(key),
            decreases self.records@.len() - i,
        {
            match self.records[i].hash {
                Some(h) => {
                    if h.0 == key.0 && h.1 == key.1 && h.2 == key.2 && h.3 == key.3 {
                        return Some(i);
                    }
                },
                None => {},
            }
            i = i + 1;
        }
        None
    }

    /// Whether some chunk belongs to this ID.
    fn chunk_exists(&self, id: &FileId) -> (r: bool)
        ensures
            r == has_chunk(self@.chunks, id@),
    {
        let mut j: usize = 0;
        while j < self.chunks.len()
            invariant
                j <= self.chunks@.len(),
                forall|k: int| 0 <= k < j ==> (#[trigger] self.chunks@[k]).file_id@ != id@,
            decreases self.chunks@.len() - j,
        {
            if self.chunks[j].file_id.equals(id) {
                return true;
            }
            j = j + 1;
        }
        false
    }

    /// Appends one chunk record per part, numbered from zero.
    fn append_chunks(
        &mut self,
        id: &FileId,
        parts: Vec<Vec<u8>>,
        expire_at: Option<i64>,
    )
        requires
            parts@.len() <= u64::MAX,
        ensures
            final(self)@.records == old(self)@.records,
            final(self)@.threshold == old(self)@.threshold,
            final(self)@.chunks.len() == old(self)@.chunks.len() + parts@.len(),
            final(self)@.chunks.subrange(0, old(self)@.chunks.len() as int) == old(self)@.chunks,
            chunk_bytes(
                final(self)@.chunks.subrange(
                    old(self)@.chunks.len() as int,
                    final(self)@.chunks.len() as int,
                ),
            ) == views(parts@),
            forall|j: int|
                old(self)@.chunks.len() <= j < final(self)@.chunks.len()
                    ==> (#[trigger] final(self)@.chunks[j]).file_id@ == id@
                    && final(self)@.chunks[j].n == j - old(self)@.chunks.len()
                    && final(self)@.chunks[j].expire_at == expire_at,
    {
        let ghost c0 = self.chunks@.len();
        let ghost all = parts@;
        let mut rest = parts;
        let mut n: u64 = 0;
        while rest.len() > 0
            invariant
                c0 <= self.chunks@.len(),
                self.chunks@.len() == c0 + n,
                n + rest@.len() == all.len(),
                all.len() <= u64::MAX,
                rest@ == all.subrange(n as int, all.len() as int),
                self.chunks@.subrange(0, c0 as int) == old(self)@.chunks,
                self.records@ == old(self)@.records,
                self.file_size_threshold == old(self)@.threshold,
                chunk_bytes(self.chunks@.subrange(c0 as int, self.chunks@.len() as int)) == views(
                    all.subrange(0, n as int),
                ),
                forall|j: int|
                    c0 <= j < self.chunks@.len() ==> (#[trigger] self.chunks@[j]).file_id@ == id@
                        && self.chunks@[j].n == j - c0 && self.chunks@[j].expire_at == expire_at,
            decreases rest@.len(),
        {
            let data = rest.remove(0);
            let ghost d = data;
            assert(d == all[n as int]);
            let ghost before = self.chunks@;
            self.chunks.push(ChunkRecord { file_id: *id, n, data, expire_at });
            proof {
                assert(self.chunks@.subrange(0, c0 as int) =~= before.subrange(0, c0 as int));
                assert(rest@ =~= all.subrange(n + 1, all.len() as int));
                let old_part = chunk_bytes(before.subrange(c0 as int, before.len() as int));
                let new_part = chunk_bytes(self.chunks@.subrange(c0 as int, self.chunks@.len() as int));
                assert forall|k: int| 0 <= k < n implies new_part[k] == old_part[k] by {
                    assert(self.chunks@[c0 + k] == before[c0 + k]);
                }
                assert(old_part =~= views(all.subrange(0, n as int)));
                assert(new_part[n as int] == d@);
                assert(new_part =~= views(all.subrange(0, n + 1)));
            }
            n = n + 1;
        }
        assert(all.subrange(0, n as int) =~= all);
    }

    /// Inserts a new file under `id`, inline or in chunks by its size.
    fn insert_file(
        &mut self,
        content: &[u8],
        file_name: String,
        mime_type: String,
        now: i64,
        id: FileId,
        hash: Option<HashKey>,
        expire_at: Option<i64>,
        chunk_expire_at: Option<i64>,
        parts: Option<Vec<Vec<u8>>>,
    ) -> (r: Result<FileId, FileCenterError>)
        requires
            wf(old(self)@),
            hash matches Some(key) ==> !has_hash(old(self)@.records, key),
            parts matches Some(p) ==> is_chunking(views(p@), content@, old(self)@.threshold as nat),
        ensures
            wf(final(self)@),
            !id_is_fresh(old(self)@, id@) ==> (r matches Err(FileCenterError::MongoDBError(_))
                && final(self)@ == old(self)@),
            id_is_fresh(old(self)@, id@) ==> (r matches Ok(rid) && rid@ == id@),
            id_is_fresh(old(self)@, id@) ==> inserted(
                old(self)@,
                final(self)@,
                id@,
                hash,
                content@,
                file_name@,
                mime_type@,
                now,
                expire_at,
                chunk_expire_at,
            ),
    {
        let used_by_record = self.find_by_id(&id).is_some();
        if used_by_record || self.chunk_exists(&id) {
            return Err(FileCenterError::MongoDBError("the file ID is already in use".to_string()));
        }
        let file_size = content.len() as u64;
        let chunked = is_stream_size(file_size, self.file_size_threshold);
        let storage = if chunked {
            let parts = match parts {
                Some(p) => p,
                None => split_into_chunks(content, self.file_size_threshold as usize),
            };
            let ghost pv = views(parts@);
            let ghost c0 = self.chunks@;
            let count = parts.len();
            assert(count as nat <= u64::MAX);
            self.append_chunks(&id, parts, chunk_expire_at);
            proof {
                let added = self.chunks@.subrange(c0.len() as int, self.chunks@.len() as int);
                assert(self.chunks@ =~= c0 + added);
                assert forall|j: int| 0 <= j < added.len() implies (#[trigger] added[j]).file_id@ == id@
                    && added[j].n == j by {
                    assert(added[j] == self.chunks@[c0.len() + j]);
                }
                lemma_numbered_append(c0, added, id@);
            }
            assert(is_chunking(pv, content@, self.file_size_threshold as nat));
            Storage::Chunked
        } else {
            assert(self.chunks@.subrange(0, self.chunks@.len() as int) =~= self.chunks@);
            Storage::Inline(slice_to_vec(content))
        };
        let ghost before = self.records@;
        self.records.push(
            FileRecord {
                id,
                hash,
                file_size,
                file_name,
                mime_type,
                create_time: now,
                expire_at,
                count: 1,
                storage,
            },
        );
        assert(self.records@.subrange(0, before.len() as int) =~= before);
        Ok(id)
    }
    /// The bytes of the chunks of one file, in stored order.
    fn copy_chunks_of(&self, id: &FileId) -> (r: Vec<Vec<u8>>)
        ensures
            views(r@) == chunk_bytes(chunks_of(self@.chunks, id@)),
    {
        let mut out: Vec<Vec<u8>> = Vec::new();
        let mut j: usize = 0;
        while j < self.chunks.len()
            invariant
                j <= self.chunks@.len(),
                views(out@) == chunk_bytes(chunks_of(self.chunks@.subrange(0, j as int), id@)),
            decreases self.chunks@.len() - j,
        {
            let ghost pre = self.chunks@.subrange(0, j as int);
            let ghost cur = self.chunks@.subrange(0, j + 1);
            proof {
                assert(cur.drop_last() =~= pre);
                reveal(Seq::filter);
            }
            if self.chunks[j].file_id.equals(id) {
                let data = self.chunks[j].data.clone();
                assert(data@ =~= self.chunks@[j as int].data@);
                let ghost before = out@;
                out.push(data);
                assert(views(out@) =~= views(before).push(data@));
                assert(chunk_bytes(chunks_of(pre, id@).push(self.chunks@[j as int])) =~= chunk_bytes(
                    chunks_of(pre, id@),
                ).push(data@));
            }
            j = j + 1;
        }
        assert(self.chunks@.subrange(0, self.chunks@.len() as int) =~= self.chunks@);
        out
    }

    /// The item that presents the record at position `i`.
    fn item_of(&self, i: usize) -> (item: FileItem)
        requires
            i < self@.records.len(),
        ensures
            item_matches(item, self@, self@.records[i as int]),
    {
        let rec = &self.records[i];
        let file_data = match &rec.storage {
            Storage::Inline(b) => {
                let copy = b.clone();
                assert(copy@ =~= b@);
                FileData::Buffer(copy)
            },
            Storage::Chunked => FileData::Stream(ChunkStream::new(self.copy_chunks_of(&rec.id))),
        };
        FileItem {
            file_id: rec.id,
            create_time: rec.create_time,
            expire_at: rec.expire_at,
            mime_type: rec.mime_type.clone(),
            file_size: rec.file_size,
            file_name: rec.file_name.clone(),
            file_data,
        }
    }

    /// Removes the chunks of one file.
    fn remove_chunks_of(&mut self, id: &FileId)
        requires
            wf(old(self)@),
        ensures
            wf(final(self)@),
            final(self)@.records == old(self)@.records,
            final(self)@.threshold == old(self)@.threshold,
            final(self)@.chunks == old(self)@.chunks.filter(not_owned_by(id@)),
    {
        let mut src: Vec<ChunkRecord> = Vec::new();
        std::mem::swap(&mut self.chunks, &mut src);
        let ghost orig = src@;
        let ghost mut k: int = 0;
        while src.len() > 0
            invariant
                0 <= k <= orig.len(),
                src@ == orig.subrange(k, orig.len() as int),
                self.chunks@ == orig.subrange(0, k).filter(not_owned_by(id@)),
                self.records@ == old(self)@.records,
                self.file_size_threshold == old(self)@.threshold,
                orig == old(self)@.chunks,
            decreases src@.len(),
        {
            let c = src.remove(0);
            proof {
                assert(orig.subrange(0, k + 1).drop_last() =~= orig.subrange(0, k));
                assert(c == orig[k]);
                reveal(Seq::filter);
            }
            if !c.file_id.equals(id) {
                self.chunks.push(c);
            }
            proof {
                assert(src@ =~= orig.subrange(k + 1, orig.len() as int));
                k = k + 1;
            }
        }
        assert(orig.subrange(0, orig.len() as int) =~= orig);
        proof {
            let idv = id@;
            lemma_numbered_filter_by_owner(orig, not_owned_by(idv), |o: Seq<u8>| o != idv);
        }
    }

    /// Adds one to the count of the record at position `i`.
    fn set_count(&mut self, i: usize, count: i64)
        requires
            i < old(self)@.records.len(),
            wf(old(self)@),
        ensures
            wf(final(self)@),
            final(self)@.records == old(self)@.records.update(
                i as int,
                with_count(old(self)@.records[i as int], count),
            ),
            final(self)@.chunks == old(self)@.chunks,
            final(self)@.threshold == old(self)@.threshold,
    {
        let ghost orig = self.records@;
        let mut rec = self.records.remove(i);
        rec.count = count;
        self.records.insert(i, rec);
        assert(self.records@ =~= orig.update(i as int, with_count(orig[i as int], count)));
        assert forall|a: int, b: int|
            0 <= a < self.records@.len() && 0 <= b < self.records@.len() && a != b implies (
            #[trigger] self.records@[a]).id@ != (#[trigger] self.records@[b]).id@ by {
            assert(self.records@[a].id == orig[a].id);
            assert(self.records@[b].id == orig[b].id);
        }
        assert forall|a: int, b: int|
            0 <= a < self.records@.len() && 0 <= b < self.records@.len() && a != b && (
            #[trigger] self.records@[a]).hash is Some implies self.records@[a].hash != (
            #[trigger] self.records@[b]).hash by {
            assert(self.records@[a].hash == orig[a].hash);
            assert(self.records@[b].hash == orig[b].hash);
        }
    }

    /// Removes the record at position `i`.
    fn remove_record(&mut self, i: usize) -> (rec: FileRecord)
        requires
            i < old(self)@.records.len(),
            wf(old(self)@),
        ensures
            wf(final(self)@),
            rec == old(self)@.records[i as int],
            final(self)@.records == old(self)@.records.remove(i as int),
            final(self)@.chunks == old(self)@.chunks,
            final(self)@.threshold == old(self)@.threshold,
    {
        let ghost orig = self.records@;
        let rec = self.records.remove(i);
        assert forall|a: int, b: int|
            0 <= a < self.records@.len() && 0 <= b < self.records@.len() && a != b implies (
            #[trigger] self.records@[a]).id@ != (#[trigger] self.records@[b]).id@ by {
            let oa = if a < i { a } else { a + 1 };
            let ob = if b < i { b } else { b + 1 };
            assert(self.records@[a] == orig[oa]);
            assert(self.records@[b] == orig[ob]);
        }
        assert forall|a: int, b: int|
            0 <= a < self.records@.len() && 0 <= b < self.records@.len() && a != b && (
            #[trigger] self.records@[a]).hash is Some implies self.records@[a].hash != (
            #[trigger] self.records@[b]).hash by {
            let oa = if a < i { a } else { a + 1 };
            let ob = if b < i { b } else { b + 1 };
            assert(self.records@[a] == orig[oa]);
            assert(self.records@[b] == orig[ob]);
        }
        rec
    }

    proof fn lemma_index_of(&self, i: int, id: Seq<u8>)
        requires
            wf(self@),
            0 <= i < self@.records.len(),
            self@.records[i].id@ == id,
        ensures
            has_record(self@.records, id),
            index_of(self@.records, id) == i,
    {
        let j = index_of(self@.records, id);
        assert(self@.records[j].id@ == id);
    }

    proof fn lemma_index_of_hash(&self, i: int, key: HashKey)
        requires
            wf(self@),
            0 <= i < self@.records.len(),
            self@.records[i].hash == Some(key),
        ensures
            has_hash(self@.records, key),
            index_of_hash(self@.records, key) == i,
    {
        let j = index_of_hash(self@.records, key);
        assert(self@.records[j].hash == Some(key));
    }

    /// Creates a file center with the default threshold.
    pub fn new() -> (r: FileCenter)
        ensures
            wf(r@),
            exists|create_time: i64| r.token_key() == cipher_key(create_time),
            r@.records.len() == 0,
            r@.chunks.len() == 0,
            r@.threshold == DEFAULT_FILE_SIZE_THRESHOLD,
    {
        let create_time = now_millis();
        FileCenter {
            records: Vec::new(),
            chunks: Vec::new(),
            file_size_threshold: DEFAULT_FILE_SIZE_THRESHOLD,
            cipher: IdCipher::new(create_time),
            id_prefix: #[verifier::truncate] (create_time as u32),
            next_serial: 0,
        }
    }

    /// Creates a file center with a custom threshold, which must be in
    /// `1..=MAX_FILE_SIZE_THRESHOLD`.
    pub fn new_with_file_size_threshold(initial_file_size_threshold: u32) -> (r: Result<
        FileCenter,
        FileCenterError,
    >)
        ensures
            threshold_ok(initial_file_size_threshold) <==> r is Ok,
            r matches Ok(c) ==> wf(c@) && c@.records.len() == 0 && c@.chunks.len() == 0
                && c@.threshold == initial_file_size_threshold
                && exists|create_time: i64| c.token_key() == cipher_key(create_time),
            r matches Err(e) ==> e is FileSizeThresholdError,
    {
        let threshold = check_file_size_threshold(initial_file_size_threshold)?;
        let mut c = FileCenter::new();
        c.file_size_threshold = threshold;
        Ok(c)
    }

    /// The current file size threshold.
    pub fn get_file_size_threshold(&self) -> (r: u32)
        ensures
            r == self@.threshold,
    {
        self.file_size_threshold
    }

    /// Changes the file size threshold, which must be in
    /// `1..=MAX_FILE_SIZE_THRESHOLD`. Stored files keep their representation.
    pub fn set_file_size_threshold(&mut self, file_size_threshold: u32) -> (r: Result<
        (),
        FileCenterError,
    >)
        requires
            wf(old(self)@),
        ensures
            wf(final(self)@),
            threshold_ok(file_size_threshold) <==> r is Ok,
            r matches Err(e) ==> e is FileSizeThresholdError,
            final(self)@.records == old(self)@.records,
            final(self)@.chunks == old(self)@.chunks,
            final(self)@.threshold == if r is Ok {
                file_size_threshold
            } else {
                old(self)@.threshold
            },
    {
        let threshold = check_file_size_threshold(file_size_threshold)?;
        self.file_size_threshold = threshold;
        Ok(())
    }

    /// Removes every file and chunk.
    pub fn drop_file_center(&mut self)
        requires
            wf(old(self)@),
        ensures
            wf(final(self)@),
            final(self)@.records.len() == 0,
            final(self)@.chunks.len() == 0,
            final(self)@.threshold == old(self)@.threshold,
    {
        self.records = Vec::new();
        self.chunks = Vec::new();
    }

    /// Whether a file with this ID exists. A temporary file is not consumed.
    pub fn check_file_item_exist(&self, id: &FileId) -> (r: Result<bool, FileCenterError>)
        ensures
            r matches Ok(b) && b == has_record(self@.records, id@),
    {
        Ok(self.find_by_id(id).is_some())
    }

    /// Joins the file that already holds the same content (its count goes
    /// up by one), or inserts the content under `new_id` created at `now`,
    /// laid out in `parts` where those are given.
    fn put_permanent(
        &mut self,
        content: &[u8],
        parts: Option<Vec<Vec<u8>>>,
        file_name: &str,
        mime_type: Option<&str>,
        now: i64,
        new_id: FileId,
    ) -> (r: Result<FileId, FileCenterError>)
        requires
            wf(old(self)@),
            parts matches Some(p) ==> is_chunking(views(p@), content@, old(self)@.threshold as nat),
        ensures
            wf(final(self)@),
            put_post(
                old(self)@,
                final(self)@,
                content@,
                file_name@,
                mime_or_default(mime_type),
                now,
                new_id@,
                r,
            ),
    {
        let key = get_hash_by_buffer(content);
        match self.find_by_hash(key) {
            Some(i) => {
                proof {
                    self.lemma_index_of_hash(i as int, key);
                }
                let count = self.records[i].count;
                if count == i64::MAX {
                    return Err(
                        FileCenterError::MongoDBError("the reference count cannot grow further".to_string()),
                    );
                }
                let id = self.records[i].id;
                self.set_count(i, count + 1);
                Ok(id)
            },
            None => {
                let mime = match mime_type {
                    Some(m) => m.to_string(),
                    None => DEFAULT_MIME_TYPE.to_string(),
                };
                self.insert_file(
                    content,
                    file_name.to_string(),
                    mime,
                    now,
                    new_id,
                    Some(key),
                    None,
                    None,
                    parts,
                )
            },
        }
    }

    /// Inserts content as a temporary file under `new_id` created at `now`,
    /// laid out in `parts` where those are given.
    fn put_temporary(
        &mut self,
        content: &[u8],
        parts: Option<Vec<Vec<u8>>>,
        file_name: &str,
        mime_type: Option<&str>,
        now: i64,
        new_id: FileId,
    ) -> (r: Result<FileId, FileCenterError>)
        requires
            wf(old(self)@),
            parts matches Some(p) ==> is_chunking(views(p@), content@, old(self)@.threshold as nat),
        ensures
            wf(final(self)@),
            temporary_put_post(
                old(self)@,
                final(self)@,
                content@,
                file_name@,
                mime_or_default(mime_type),
                now,
                new_id@,
                r,
            ),
    {
        let mime = match mime_type {
            Some(m) => m.to_string(),
            None => DEFAULT_MIME_TYPE.to_string(),
        };
        let expire_at = expiry(now, TEMPORARY_LIFE_TIME);
        let chunk_expire_at = expiry(now, TEMPORARY_CHUNK_LIFE_TIME);
        self.insert_file(
            content,
            file_name.to_string(),
            mime,
            now,
            new_id,
            None,
            Some(expire_at),
            Some(chunk_expire_at),
            parts,
        )
    }

    /// Stores content, joining the file that already holds the same content
    /// (its count goes up by one), or inserting it under `new_id` created at
    /// `now`.
    pub fn put_file_by_buffer_at(
        &mut self,
        buffer: &[u8],
        file_name: &str,
        mime_type: Option<&str>,
        now: i64,
        new_id: FileId,
    ) -> (r: Result<FileId, FileCenterError>)
        requires
            wf(old(self)@),
        ensures
            wf(final(self)@),
            put_post(
                old(self)@,
                final(self)@,
                buffer@,
                file_name@,
                mime_or_default(mime_type),
                now,
                new_id@,
                r,
            ),
    {
        self.put_permanent(buffer, None, file_name, mime_type, now, new_id)
    }

    /// Stores content as a permanent file; see `put_file_by_buffer_at`, with
    /// a fresh ID and the current time.
    pub fn put_file_by_buffer(
        &mut self,
        buffer: &[u8],
        file_name: &str,
        mime_type: Option<&str>,
    ) -> (r: Result<FileId, FileCenterError>)
        requires
            wf(old(self)@),
        ensures
            wf(final(self)@),
            exists|now: i64, new_id: Seq<u8>|
                put_post(
                    old(self)@,
                    final(self)@,
                    buffer@,
                    file_name@,
                    mime_or_default(mime_type),
                    now,
                    new_id,
                    r,
                ),
    {
        let now = now_millis();
        let new_id = self.next_file_id();
        self.put_file_by_buffer_at(buffer, file_name, mime_type, now, new_id)
    }

    /// Stores content as a temporary file under `new_id`, created at `now`:
    /// never joined with other content, gone after one retrieval or a minute.
    pub fn put_file_by_buffer_temporarily_at(
        &mut self,
        buffer: &[u8],
        file_name: &str,
        mime_type: Option<&str>,
        now: i64,
        new_id: FileId,
    ) -> (r: Result<FileId, FileCenterError>)
        requires
            wf(old(self)@),
        ensures
            wf(final(self)@),
            temporary_put_post(
                old(self)@,
                final(self)@,
                buffer@,
                file_name@,
                mime_or_default(mime_type),
                now,
                new_id@,
                r,
            ),
    {
        self.put_temporary(buffer, None, file_name, mime_type, now, new_id)
    }

    /// Stores content as a temporary file; see
    /// `put_file_by_buffer_temporarily_at`, with a fresh ID and the current time.
    pub fn put_file_by_buffer_temporarily(
        &mut self,
        buffer: &[u8],
        file_name: &str,
        mime_type: Option<&str>,
    ) -> (r: Result<FileId, FileCenterError>)
        requires
            wf(old(self)@),
        ensures
            wf(final(self)@),
            exists|now: i64, new_id: Seq<u8>|
                temporary_put_post(
                    old(self)@,
                    final(self)@,
                    buffer@,
                    file_name@,
                    mime_or_default(mime_type),
                    now,
                    new_id,
                    r,
                ),
    {
        let now = now_millis();
        let new_id = self.next_file_id();
        self.put_file_by_buffer_temporarily_at(buffer, file_name, mime_type, now, new_id)
    }

    /// Retrieves a file at instant `now`. A temporary file is removed by its
    /// first retrieval, and gives nothing once expired.
    pub fn get_file_item_by_id_at(&mut self, id: &FileId, now: i64) -> (r: Result<
        Option<FileItem>,
        FileCenterError,
    >)
        requires
            wf(old(self)@),
        ensures
            wf(final(self)@),
            get_post(old(self)@, final(self)@, id@, now, r),
    {
        match self.find_by_id(id) {
            None => Ok(None),
            Some(i) => {
                proof {
                    self.lemma_index_of(i as int, id@);
                }
                match retrieval_of(self.records[i].expire_at, now) {
                    Retrieval::Return => Ok(Some(self.item_of(i))),
                    Retrieval::ConsumeExpired => {
                        self.remove_record(i);
                        Ok(None)
                    },
                    Retrieval::ConsumeAndReturn => {
                        let item = self.item_of(i);
                        self.remove_record(i);
                        Ok(Some(item))
                    },
                }
            },
        }
    }

    /// Retrieves a file at the current time; see `get_file_item_by_id_at`.
    pub fn get_file_item_by_id(&mut self, id: &FileId) -> (r: Result<
        Option<FileItem>,
        FileCenterError,
    >)
        requires
            wf(old(self)@),
        ensures
            wf(final(self)@),
            exists|now: i64| get_post(old(self)@, final(self)@, id@, now, r),
    {
        let now = now_millis();
        self.get_file_item_by_id_at(id, now)
    }

    /// Drops one reference to a file and returns its size; the file and its
    /// chunks go when the count reaches zero.
    pub fn delete_file_item_by_id(&mut self, id: &FileId) -> (r: Result<
        Option<u64>,
        FileCenterError,
    >)
        requires
            wf(old(self)@),
        ensures
            wf(final(self)@),
            delete_post(old(self)@, final(self)@, id@, r),
    {
        match self.find_by_id(id) {
            None => Ok(None),
            Some(i) => {
                proof {
                    self.lemma_index_of(i as int, id@);
                }
                let count = self.records[i].count;
                if count == i64::MIN {
                    return Err(
                        FileCenterError::MongoDBError("the reference count cannot shrink further".to_string()),
                    );
                }
                let file_size = self.records[i].file_size;
                if is_exhausted(count - 1) {
                    let rec = self.remove_record(i);
                    match rec.storage {
                        Storage::Chunked => self.remove_chunks_of(id),
                        Storage::Inline(_) => {},
                    }
                } else {
                    self.set_count(i, count - 1);
                }
                Ok(Some(file_size))
            },
        }
    }

    /// The key under which this file center makes its ID tokens.
    pub closed spec fn token_key(&self) -> Seq<char> {
        self.cipher@
    }

    /// Decodes an ID token into a file ID: the ID of a token that decodes
    /// to twelve bytes, an `IDTokenError` otherwise.
    pub fn decrypt_id_token(&self, id_token: &str) -> (r: Result<FileId, FileCenterError>)
        ensures
            decrypt_post(self.token_key(), id_token@, r),
    {
        self.cipher.decrypt_id_token(id_token)
    }

    /// Encodes a file ID as an opaque URL-safe token.
    pub fn encrypt_id(&self, id: &FileId) -> (r: String)
        ensures
            r@ == url_token(self.token_key(), id@),
    {
        self.cipher.encrypt_id(id)
    }

    /// Encodes a file ID as a token written after the text in `buffer`.
    pub fn encrypt_id_to_buffer(&self, id: &FileId, buffer: String) -> (r: String)
        ensures
            r@ == buffer@ + url_token(self.token_key(), id@),
    {
        self.cipher.encrypt_id_to_buffer(id, buffer)
    }

    /// Garbage collection, first pass: drops the records whose chunks are all
    /// missing.
    fn drop_dangling_records(&mut self)
        requires
            wf(old(self)@),
        ensures
            wf(final(self)@),
            final(self)@.records == old(self)@.records.filter(not_dangling(old(self)@.chunks)),
            final(self)@.chunks == old(self)@.chunks,
            final(self)@.threshold == old(self)@.threshold,
    {
        proof {
            lemma_filter_wf(self@, not_dangling(self@.chunks));
        }
        let mut src: Vec<FileRecord> = Vec::new();
        std::mem::swap(&mut self.records, &mut src);
        let ghost orig = src@;
        let ghost mut k: int = 0;
        while src.len() > 0
            invariant
                0 <= k <= orig.len(),
                src@ == orig.subrange(k, orig.len() as int),
                self.records@ == orig.subrange(0, k).filter(not_dangling(self.chunks@)),
                self.chunks@ == old(self)@.chunks,
                self.file_size_threshold == old(self)@.threshold,
                orig == old(self)@.records,
            decreases src@.len(),
        {
            let r = src.remove(0);
            proof {
                assert(orig.subrange(0, k + 1).drop_last() =~= orig.subrange(0, k));
                assert(r == orig[k]);
                reveal(Seq::filter);
            }
            let keep = match &r.storage {
                Storage::Chunked => self.chunk_exists(&r.id),
                Storage::Inline(_) => true,
            };
            if keep {
                self.records.push(r);
            }
            proof {
                assert(src@ =~= orig.subrange(k + 1, orig.len() as int));
                k = k + 1;
            }
        }
        assert(orig.subrange(0, orig.len() as int) =~= orig);
    }

    /// Garbage collection, second pass: drops the records with an exhausted
    /// count, and their chunks.
    fn drop_exhausted_records(&mut self)
        requires
            wf(old(self)@),
        ensures
            wf(final(self)@),
            final(self)@.records == old(self)@.records.filter(count_positive()),
            final(self)@.chunks == old(self)@.chunks.filter(owner_not_exhausted(old(self)@.records)),
            final(self)@.threshold == old(self)@.threshold,
    {
        let mut src: Vec<ChunkRecord> = Vec::new();
        std::mem::swap(&mut self.chunks, &mut src);
        let ghost orig = src@;
        let ghost mut k: int = 0;
        while src.len() > 0
            invariant
                records_unique(self.records@),
                chunks_numbered(old(self)@.chunks),
                0 < self.file_size_threshold <= MAX_FILE_SIZE_THRESHOLD,
                0 <= k <= orig.len(),
                src@ == orig.subrange(k, orig.len() as int),
                self.chunks@ == orig.subrange(0, k).filter(owner_not_exhausted(self.records@)),
                self.records@ == old(self)@.records,
                self.file_size_threshold == old(self)@.threshold,
                orig == old(self)@.chunks,
            decreases src@.len(),
        {
            let c = src.remove(0);
            proof {
                assert(orig.subrange(0, k + 1).drop_last() =~= orig.subrange(0, k));
                assert(c == orig[k]);
                reveal(Seq::filter);
            }
            let keep = match self.find_by_id(&c.file_id) {
                Some(i) => {
                    proof {
                        if exhausted_owner(self.records@, c.file_id@) {
                            let m = choose|m: int|
                                0 <= m < self.records@.len() && (#[trigger] self.records@[m]).id@
                                    == c.file_id@ && self.records@[m].count <= 0;
                            assert(m == i);
                        }
                    }
                    self.records[i].count > 0
                },
                None => true,
            };
            if keep {
                self.chunks.push(c);
            }
            proof {
                assert(src@ =~= orig.subrange(k + 1, orig.len() as int));
                k = k + 1;
            }
        }
        assert(orig.subrange(0, orig.len() as int) =~= orig);
        proof {
            let recs = self.records@;
            lemma_numbered_filter_by_owner(orig, owner_not_exhausted(recs), |o: Seq<u8>| !exhausted_owner(recs, o));
        }
        proof {
            lemma_filter_wf(self@, count_positive());
        }
        let mut rsrc: Vec<FileRecord> = Vec::new();
        std::mem::swap(&mut self.records, &mut rsrc);
        let ghost rorig = rsrc@;
        let ghost mut q: int = 0;
        while rsrc.len() > 0
            invariant
                0 <= q <= rorig.len(),
                rsrc@ == rorig.subrange(q, rorig.len() as int),
                self.records@ == rorig.subrange(0, q).filter(count_positive()),
                self.chunks@ == old(self)@.chunks.filter(owner_not_exhausted(old(self)@.records)),
                self.file_size_threshold == old(self)@.threshold,
                rorig == old(self)@.records,
            decreases rsrc@.len(),
        {
            let r = rsrc.remove(0);
            proof {
                assert(rorig.subrange(0, q + 1).drop_last() =~= rorig.subrange(0, q));
                assert(r == rorig[q]);
                reveal(Seq::filter);
            }
            if r.count > 0 {
                self.records.push(r);
            }
            proof {
                assert(rsrc@ =~= rorig.subrange(q + 1, rorig.len() as int));
                q = q + 1;
            }
        }
        assert(rorig.subrange(0, rorig.len() as int) =~= rorig);
    }

    /// Garbage collection, third pass: drops the chunks whose owner does not
    /// exist.
    fn drop_orphaned_chunks(&mut self)
        requires
            wf(old(self)@),
        ensures
            wf(final(self)@),
            final(self)@.records == old(self)@.records,
            final(self)@.chunks == old(self)@.chunks.filter(owner_exists(old(self)@.records)),
            final(self)@.threshold == old(self)@.threshold,
    {
        let mut src: Vec<ChunkRecord> = Vec::new();
        std::mem::swap(&mut self.chunks, &mut src);
        let ghost orig = src@;
        let ghost mut k: int = 0;
        while src.len() > 0
            invariant
                records_unique(self.records@),
                chunks_numbered(old(self)@.chunks),
                0 < self.file_size_threshold <= MAX_FILE_SIZE_THRESHOLD,
                0 <= k <= orig.len(),
                src@ == orig.subrange(k, orig.len() as int),
                self.chunks@ == orig.subrange(0, k).filter(owner_exists(self.records@)),
                self.records@ == old(self)@.records,
                self.file_size_threshold == old(self)@.threshold,
                orig == old(self)@.chunks,
            decreases src@.len(),
        {
            let c = src.remove(0);
            proof {
                assert(orig.subrange(0, k + 1).drop_last() =~= orig.subrange(0, k));
                assert(c == orig[k]);
                reveal(Seq::filter);
            }
            let keep = self.find_by_id(&c.file_id).is_some();
            if keep {
                self.chunks.push(c);
            }
            proof {
                assert(src@ =~= orig.subrange(k + 1, orig.len() as int));
                k = k + 1;
            }
        }
        assert(orig.subrange(0, orig.len() as int) =~= orig);
        proof {
            let recs = self.records@;
            lemma_numbered_filter_by_owner(orig, owner_exists(recs), |o: Seq<u8>| has_record(recs, o));
        }
    }

    /// Removes what no longer belongs: records whose chunks are all missing,
    /// records with an exhausted count together with their chunks, and chunks
    /// whose owner does not exist. Valid records and their chunks stay.
    pub fn clear_garbage(&mut self) -> (r: Result<(), FileCenterError>)
        requires
            wf(old(self)@),
        ensures
            wf(final(self)@),
            r is Ok,
            gc_post(old(self)@, final(self)@),
    {
        self.drop_dangling_records();
        self.drop_exhausted_records();
        self.drop_orphaned_chunks();
        Ok(())
    }

    /// Deletes every chunk of one file directly, as a bulk delete on the
    /// chunk collection would; records are not touched.
    pub fn delete_chunks_by_file_id(&mut self, id: &FileId)
        requires
            wf(old(self)@),
        ensures
            wf(final(self)@),
            final(self)@.records == old(self)@.records,
            final(self)@.chunks == old(self)@.chunks.filter(not_owned_by(id@)),
            final(self)@.threshold == old(self)@.threshold,
    {
        self.remove_chunks_of(id);
    }

    /// Deletes one record directly, as a delete on the record collection
    /// would: no count is consulted and no chunk is touched.
    pub fn delete_record_by_id(&mut self, id: &FileId)
        requires
            wf(old(self)@),
        ensures
            wf(final(self)@),
            !has_record(old(self)@.records, id@) ==> final(self)@ == old(self)@,
            has_record(old(self)@.records, id@) ==> final(self)@.records == old(self)@.records.remove(
                index_of(old(self)@.records, id@),
            ),
            final(self)@.chunks == old(self)@.chunks,
            final(self)@.threshold == old(self)@.threshold,
    {
        match self.find_by_id(id) {
            None => {},
            Some(i) => {
                proof {
                    self.lemma_index_of(i as int, id@);
                }
                self.remove_record(i);
            },
        }
    }

    /// Overwrites the count of one record directly, as an update on the
    /// record collection would.
    pub fn set_count_by_id(&mut self, id: &FileId, count: i64)
        requires
            wf(old(self)@),
        ensures
            wf(final(self)@),
            !has_record(old(self)@.records, id@) ==> final(self)@ == old(self)@,
            has_record(old(self)@.records, id@) ==> final(self)@.records == old(self)@.records.update(
                index_of(old(self)@.records, id@),
                with_count(old(self)@.records[index_of(old(self)@.records, id@)], count),
            ),
            final(self)@.chunks == old(self)@.chunks,
            final(self)@.threshold == old(self)@.threshold,
    {
        match self.find_by_id(id) {
            None => {},
            Some(i) => {
                proof {
                    self.lemma_index_of(i as int, id@);
                }
                self.set_count(i, count);
            },
        }
    }

    /// Lays out the bytes of successive reads in chunks of the threshold's
    /// size, as they arrive.
    fn chunk_reads(&self, reads: &Vec<Vec<u8>>) -> (parts: Vec<Vec<u8>>)
        requires
            wf(self@),
        ensures
            is_chunking(views(parts@), joined(views(reads@)), self@.threshold as nat),
    {
        let mut writer = ChunkWriter::new(self.file_size_threshold as usize);
        let mut i: usize = 0;
        while i < reads.len()
            invariant
                i <= reads@.len(),
                writer.is_valid(),
                writer.size() == self@.threshold,
                writer.taken() == Seq::<Seq<u8>>::empty(),
                writer.fed() == joined(views(reads@.subrange(0, i as int))),
            decreases reads@.len() - i,
        {
            proof {
                assert(reads@.subrange(0, i + 1) =~= reads@.subrange(0, i as int).push(reads@[i as int]));
                lemma_views_push(reads@.subrange(0, i as int), reads@[i as int]);
                lemma_joined_push(views(reads@.subrange(0, i as int)), reads@[i as int]@);
            }
            writer.push(reads[i].as_slice());
            i = i + 1;
        }
        assert(reads@.subrange(0, reads@.len() as int) =~= reads@);
        let parts = writer.finish();
        assert(Seq::<Seq<u8>>::empty() + views(parts@) =~= views(parts@));
        parts
    }

    /// Stores the content of successive reads of a source, as
    /// `put_file_by_buffer_at` stores a buffer: joining the file that holds
    /// the same content, or inserting it under `new_id` created at `now`.
    /// The reads are laid out in chunks as they arrive.
    pub fn put_file_by_reader_at(
        &mut self,
        reads: &Vec<Vec<u8>>,
        file_name: &str,
        mime_type: Option<&str>,
        now: i64,
        new_id: FileId,
    ) -> (r: Result<FileId, FileCenterError>)
        requires
            wf(old(self)@),
        ensures
            wf(final(self)@),
            put_post(
                old(self)@,
                final(self)@,
                joined(views(reads@)),
                file_name@,
                mime_or_default(mime_type),
                now,
                new_id@,
                r,
            ),
    {
        let parts = self.chunk_reads(reads);
        let content = join_chunks(&parts);
        self.put_permanent(content.as_slice(), Some(parts), file_name, mime_type, now, new_id)
    }

    /// Stores the content of successive reads as a permanent file; see
    /// `put_file_by_reader_at`, with a fresh ID and the current time.
    pub fn put_file_by_reader(
        &mut self,
        reads: &Vec<Vec<u8>>,
        file_name: &str,
        mime_type: Option<&str>,
    ) -> (r: Result<FileId, FileCenterError>)
        requires
            wf(old(self)@),
        ensures
            wf(final(self)@),
            exists|now: i64, new_id: Seq<u8>|
                put_post(
                    old(self)@,
                    final(self)@,
                    joined(views(reads@)),
                    file_name@,
                    mime_or_default(mime_type),
                    now,
                    new_id,
                    r,
                ),
    {
        let now = now_millis();
        let new_id = self.next_file_id();
        self.put_file_by_reader_at(reads, file_name, mime_type, now, new_id)
    }

    /// Stores the content of successive reads as a temporary file under
    /// `new_id`, created at `now`; see `put_file_by_buffer_temporarily_at`.
    pub fn put_file_by_reader_temporarily_at(
        &mut self,
        reads: &Vec<Vec<u8>>,
        file_name: &str,
        mime_type: Option<&str>,
        now: i64,
        new_id: FileId,
    ) -> (r: Result<FileId, FileCenterError>)
        requires
            wf(old(self)@),
        ensures
            wf(final(self)@),
            temporary_put_post(
                old(self)@,
                final(self)@,
                joined(views(reads@)),
                file_name@,
                mime_or_default(mime_type),
                now,
                new_id@,
                r,
            ),
    {
        let parts = self.chunk_reads(reads);
        let content = join_chunks(&parts);
        self.put_temporary(content.as_slice(), Some(parts), file_name, mime_type, now, new_id)
    }

    /// Stores the content of successive reads as a temporary file; see
    /// `put_file_by_reader_temporarily_at`, with a fresh ID and the current
    /// time.
    pub fn put_file_by_reader_temporarily(
        &mut self,
        reads: &Vec<Vec<u8>>,
        file_name: &str,
        mime_type: Option<&str>,
    ) -> (r: Result<FileId, FileCenterError>)
        requires
            wf(old(self)@),
        ensures
            wf(final(self)@),
            exists|now: i64, new_id: Seq<u8>|
                temporary_put_post(
                    old(self)@,
                    final(self)@,
                    joined(views(reads@)),
                    file_name@,
                    mime_or_default(mime_type),
                    now,
                    new_id,
                    r,
                ),
    {
        let now = now_millis();
        let new_id = self.next_file_id();
        self.put_file_by_reader_temporarily_at(reads, file_name, mime_type, now, new_id)
    }

    /// Stores the bytes read from a file path as a permanent file, under
    /// `new_id` created at `now` where it is new; see `put_file_by_buffer_at`.
    /// The name defaults to the path's final component and the MIME type to
    /// the one its extension names; a path without a final component, with
    /// no name given, is an error.
    pub fn put_file_by_path_bytes_at(
        &mut self,
        file_path: &str,
        content: &[u8],
        file_name: Option<&str>,
        mime_type: Option<&str>,
        now: i64,
        new_id: FileId,
    ) -> (r: Result<FileId, FileCenterError>)
        requires
            wf(old(self)@),
        ensures
            wf(final(self)@),
            lacks_name(old(self)@, file_path@, file_name, content@) ==> (r matches Err(
                FileCenterError::IOError(_),
            )) && final(self)@ == old(self)@,
            !lacks_name(old(self)@, file_path@, file_name, content@) ==> put_post(
                old(self)@,
                final(self)@,
                content@,
                name_for_path(file_path@, file_name)->Some_0,
                mime_for_path(file_path@, mime_type),
                now,
                new_id@,
                r,
            ),
    {
        let name = match get_name_by_path(file_path, file_name) {
            Some(n) => n,
            None => {
                // content that is already stored is joined; only a new file
                // needs a name
                let key = get_hash_by_buffer(content);
                if self.find_by_hash(key).is_none() {
                    return Err(FileCenterError::IOError("the path has no file name".to_string()));
                }
                String::new()
            },
        };
        let mime = get_mime_for_path(file_path, mime_type);
        let mime_str: Option<&str> = Some(mime.as_str());
        self.put_file_by_buffer_at(content, name.as_str(), mime_str, now, new_id)
    }

    /// Stores the bytes read from a file path; see
    /// `put_file_by_path_bytes_at`, with a fresh ID and the current time.
    pub fn put_file_by_path_bytes(
        &mut self,
        file_path: &str,
        content: &[u8],
        file_name: Option<&str>,
        mime_type: Option<&str>,
    ) -> (r: Result<FileId, FileCenterError>)
        requires
            wf(old(self)@),
        ensures
            wf(final(self)@),
            lacks_name(old(self)@, file_path@, file_name, content@) ==> (r matches Err(
                FileCenterError::IOError(_),
            )) && final(self)@ == old(self)@,
            !lacks_name(old(self)@, file_path@, file_name, content@) ==> exists|now: i64, new_id: Seq<u8>|
                put_post(
                    old(self)@,
                    final(self)@,
                    content@,
                    name_for_path(file_path@, file_name)->Some_0,
                    mime_for_path(file_path@, mime_type),
                    now,
                    new_id,
                    r,
                ),
    {
        let now = now_millis();
        let new_id = self.next_file_id();
        self.put_file_by_path_bytes_at(file_path, content, file_name, mime_type, now, new_id)
    }

    /// Stores the bytes read from a file path as a temporary file under
    /// `new_id`, created at `now`; see `put_file_by_buffer_temporarily_at`.
    /// The name defaults to the path's final component and the MIME type to
    /// the one its extension names; a path without a final component, with
    /// no name given, is an error.
    pub fn put_file_by_path_bytes_temporarily_at(
        &mut self,
        file_path: &str,
        content: &[u8],
        file_name: Option<&str>,
        mime_type: Option<&str>,
        now: i64,
        new_id: FileId,
    ) -> (r: Result<FileId, FileCenterError>)
        requires
            wf(old(self)@),
        ensures
            wf(final(self)@),
            name_for_path(file_path@, file_name) is None ==> (r matches Err(
                FileCenterError::IOError(_),
            )) && final(self)@ == old(self)@,
            name_for_path(file_path@, file_name) is Some ==> temporary_put_post(
                old(self)@,
                final(self)@,
                content@,
                name_for_path(file_path@, file_name)->Some_0,
                mime_for_path(file_path@, mime_type),
                now,
                new_id@,
                r,
            ),
    {
        let name = match get_name_by_path(file_path, file_name) {
            Some(n) => n,
            None => {
                return Err(FileCenterError::IOError("the path has no file name".to_string()));
            },
        };
        let mime = get_mime_for_path(file_path, mime_type);
        let mime_str: Option<&str> = Some(mime.as_str());
        self.put_file_by_buffer_temporarily_at(content, name.as_str(), mime_str, now, new_id)
    }

    /// Stores the bytes read from a file path; see
    /// `put_file_by_path_bytes_temporarily_at`, with a fresh ID and the current time.
    pub fn put_file_by_path_bytes_temporarily(
        &mut self,
        file_path: &str,
        content: &[u8],
        file_name: Option<&str>,
        mime_type: Option<&str>,
    ) -> (r: Result<FileId, FileCenterError>)
        requires
            wf(old(self)@),
        ensures
            wf(final(self)@),
            name_for_path(file_path@, file_name) is None ==> (r matches Err(
                FileCenterError::IOError(_),
            )) && final(self)@ == old(self)@,
            name_for_path(file_path@, file_name) is Some ==> exists|now: i64, new_id: Seq<u8>|
                temporary_put_post(
                    old(self)@,
                    final(self)@,
                    content@,
                    name_for_path(file_path@, file_name)->Some_0,
                    mime_for_path(file_path@, mime_type),
                    now,
                    new_id,
                    r,
                ),
    {
        let now = now_millis();
        let new_id = self.next_file_id();
        self.put_file_by_path_bytes_temporarily_at(file_path, content, file_name, mime_type, now, new_id)
    }

    /// The number of chunks stored under one file ID.
    pub fn count_chunks_of(&self, id: &FileId) -> (r: usize)
        ensures
            r == chunks_of(self@.chunks, id@).len(),
    {
        let parts = self.copy_chunks_of(id);
        assert(views(parts@).len() == parts@.len());
        parts.len()
    }

    /// The number of chunks stored, of all files.
    pub fn count_chunks(&self) -> (r: usize)
        ensures
            r == self@.chunks.len(),
    {
        self.chunks.len()
    }

    /// Removes the temporary records whose expiry instant has passed at
    /// `now`, as the store's expiry sweep does. Their chunks live on until
    /// their own, longer, expiry or the next garbage collection.
    pub fn remove_expired_at(&mut self, now: i64)
        requires
            wf(old(self)@),
        ensures
            wf(final(self)@),
            final(self)@.records == old(self)@.records.filter(not_expired(now)),
            final(self)@.chunks == old(self)@.chunks,
            final(self)@.threshold == old(self)@.threshold,
    {
        proof {
            lemma_filter_wf(self@, not_expired(now));
        }
        let mut src: Vec<FileRecord> = Vec::new();
        std::mem::swap(&mut self.records, &mut src);
        let ghost orig = src@;
        let ghost mut k: int = 0;
        while src.len() > 0
            invariant
                0 <= k <= orig.len(),
                src@ == orig.subrange(k, orig.len() as int),
                self.records@ == orig.subrange(0, k).filter(not_expired(now)),
                self.chunks@ == old(self)@.chunks,
                self.file_size_threshold == old(self)@.threshold,
                orig == old(self)@.records,
            decreases src@.len(),
        {
            let r = src.remove(0);
            proof {
                assert(orig.subrange(0, k + 1).drop_last() =~= orig.subrange(0, k));
                assert(r == orig[k]);
                reveal(Seq::filter);
            }
            let keep = match r.expire_at {
                Some(e) => !(now > e),
                None => true,
            };
            if keep {
                self.records.push(r);
            }
            proof {
                assert(src@ =~= orig.subrange(k + 1, orig.len() as int));
                k = k + 1;
            }
        }
        assert(orig.subrange(0, orig.len() as int) =~= orig);
    }

    /// Removes the temporary records that have expired by now; see
    /// `remove_expired_at`.
    pub fn remove_expired(&mut self)
        requires
            wf(old(self)@),
        ensures
            wf(final(self)@),
            exists|now: i64| final(self)@.records == old(self)@.records.filter(not_expired(now)),
            final(self)@.chunks == old(self)@.chunks,
            final(self)@.threshold == old(self)@.threshold,
    {
        let now = now_millis();
        self.remove_expired_at(now);
    }

    /// A new file ID: the low four bytes of the creation instant, then the
    /// next serial number of this file center. Serial numbers are never
    /// reused, so IDs made here do not repeat until the serial wraps.
    fn next_file_id(&mut self) -> (r: FileId)
        ensures
            final(self)@ == old(self)@,
            final(self).token_key() == old(self).token_key(),
    {
        let id = FileId::from_parts(self.id_prefix, self.next_serial);
        self.next_serial = if self.next_serial == u64::MAX {
            0
        } else {
            self.next_serial + 1
        };
        id
    }
}

} // verus!
