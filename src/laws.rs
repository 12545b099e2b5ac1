//! Properties of the file center that relate several operations, proved from
//! the contracts of those operations.
use vstd::prelude::*;

use crate::chunking::goes_to_chunks;
use crate::filters::{lemma_filter_absorb, lemma_filter_all, lemma_filter_none, lemma_in_filter};
use crate::decisions::{dedup_rule, find_and_increment, insert_with_key, DedupAction, KeyIndex};
use crate::file_center::{
    chunks_of, content_of, count_positive, delete_post, exhausted_owner, expiry_after, gc_post,
    get_post, has_chunk, has_hash, has_record, id_is_fresh, index_of, index_of_hash, inserted,
    is_dangling, lemma_filter_wf, not_dangling, owned_by, owner_exists, owner_not_exhausted,
    put_post, temporary_put_post, wf, CenterView,
};
use crate::file_center_error::FileCenterError;
use crate::file_id::{decrypt_post, url_token, FileId};
use crate::file_item::FileItem;
use crate::functions::{hash_key_of, HashKey};
use crate::TEMPORARY_LIFE_TIME;

verus! {

/// The record that `index_of` picks is the one that holds the ID.
proof fn lemma_index_of(v: CenterView, i: int, id: Seq<u8>)
    requires
        wf(v),
        0 <= i < v.records.len(),
        v.records[i].id@ == id,
    ensures
        has_record(v.records, id),
        index_of(v.records, id) == i,
{
    let j = index_of(v.records, id);
    assert(v.records[j].id@ == id);
}

/// After a removal at the position of an ID, no record holds that ID.
proof fn lemma_removed(v: CenterView, i: int)
    requires
        wf(v),
        0 <= i < v.records.len(),
    ensures
        !has_record(v.records.remove(i), v.records[i].id@),
{
    let rest = v.records.remove(i);
    if has_record(rest, v.records[i].id@) {
        let k = choose|k: int| 0 <= k < rest.len() && (#[trigger] rest[k]).id@ == v.records[i].id@;
        let o = if k < i { k } else { k + 1 };
        assert(rest[k] == v.records[o]);
    }
}

/// The chunks of a freshly inserted chunked file are the chunks that the
/// insertion appended.
proof fn lemma_new_file_chunks(
    v0: CenterView,
    v1: CenterView,
    id: Seq<u8>,
    hash: Option<HashKey>,
    content: Seq<u8>,
    name: Seq<char>,
    mime: Seq<char>,
    now: i64,
    expire_at: Option<i64>,
    chunk_expire_at: Option<i64>,
)
    requires
        id_is_fresh(v0, id),
        inserted(v0, v1, id, hash, content, name, mime, now, expire_at, chunk_expire_at),
    ensures
        content_of(v1, v1.records.last()) == content,
{
    if goes_to_chunks(content.len(), v0.threshold as nat) {
        let added = v1.chunks.subrange(v0.chunks.len() as int, v1.chunks.len() as int);
        let p = owned_by(id);
        assert(v1.chunks =~= v0.chunks + added);
        Seq::filter_distributes_over_add(v0.chunks, added, p);
        assert forall|i: int| 0 <= i < v0.chunks.len() implies !p(#[trigger] v0.chunks[i]) by {
            if p(v0.chunks[i]) {
                assert(has_chunk(v0.chunks, id));
            }
        }
        lemma_filter_none(v0.chunks, p);
        assert forall|i: int| 0 <= i < added.len() implies p(#[trigger] added[i]) by {
            assert(added[i].file_id@ == id);
        }
        lemma_filter_all(added, p);
        assert(chunks_of(v1.chunks, id) =~= added);
    }
}

/// Putting the same content twice gives the same ID both times, and the
/// second put adds one to that file's count.
pub proof fn law_dedup_same_id(
    v0: CenterView,
    v1: CenterView,
    v2: CenterView,
    content: Seq<u8>,
    name1: Seq<char>,
    mime1: Seq<char>,
    now1: i64,
    new_id1: Seq<u8>,
    r1: Result<FileId, FileCenterError>,
    name2: Seq<char>,
    mime2: Seq<char>,
    now2: i64,
    new_id2: Seq<u8>,
    r2: Result<FileId, FileCenterError>,
)
    requires
        wf(v0),
        wf(v1),
        put_post(v0, v1, content, name1, mime1, now1, new_id1, r1),
        put_post(v1, v2, content, name2, mime2, now2, new_id2, r2),
        r1 is Ok,
        r2 is Ok,
    ensures
        r1->Ok_0@ == r2->Ok_0@,
        has_record(v2.records, r1->Ok_0@),
        v2.records[index_of(v2.records, r1->Ok_0@)].count == v1.records[index_of(
            v1.records,
            r1->Ok_0@,
        )].count + 1,
{
    let key = hash_key_of(content);
    let id = r1->Ok_0@;
    let i: int = if has_hash(v0.records, key) {
        index_of_hash(v0.records, key)
    } else {
        v0.records.len() as int
    };
    assert(v1.records[i].hash == Some(key));
    assert(v1.records[i].id@ == id);
    assert(has_hash(v1.records, key));
    let j = index_of_hash(v1.records, key);
    assert(j == i);
    lemma_index_of(v1, i, id);
    assert(v2.records[i].id@ == id);
    assert(v2.records =~= v1.records.update(i, crate::file_center::with_count(v1.records[i], (v1.records[i].count + 1) as i64)));
    assert forall|a: int, b: int|
        0 <= a < v2.records.len() && 0 <= b < v2.records.len() && a != b implies (
        #[trigger] v2.records[a]).id@ != (#[trigger] v2.records[b]).id@ by {
        assert(v2.records[a].id == v1.records[a].id);
        assert(v2.records[b].id == v1.records[b].id);
    }
    let k = index_of(v2.records, id);
    assert(v2.records[k].id@ == id);
    assert(k == i);
}

/// A deletion of a file whose count is above one keeps it, one count lower;
/// a deletion at count one removes it; both report its size. A deletion of
/// a missing ID reports nothing, and so does a retrieval.
pub proof fn law_delete_counts_down(
    v0: CenterView,
    v1: CenterView,
    id: Seq<u8>,
    r: Result<Option<u64>, FileCenterError>,
)
    requires
        wf(v0),
        delete_post(v0, v1, id, r),
    ensures
        !has_record(v0.records, id) ==> (r matches Ok(None)),
        has_record(v0.records, id) && v0.records[index_of(v0.records, id)].count > 1 ==> (
        r matches Ok(Some(size)) && size == v0.records[index_of(v0.records, id)].file_size)
            && has_record(v1.records, id) && v1.records[index_of(v1.records, id)].count
            == v0.records[index_of(v0.records, id)].count - 1,
        has_record(v0.records, id) && v0.records[index_of(v0.records, id)].count == 1 ==> (
        r matches Ok(Some(size)) && size == v0.records[index_of(v0.records, id)].file_size)
            && !has_record(v1.records, id),
{
    if has_record(v0.records, id) {
        let i = index_of(v0.records, id);
        let c = v0.records[i].count;
        if c > 1 {
            assert(v1.records[i].id@ == id);
            assert forall|a: int, b: int|
                0 <= a < v1.records.len() && 0 <= b < v1.records.len() && a != b implies (
                #[trigger] v1.records[a]).id@ != (#[trigger] v1.records[b]).id@ by {
                assert(v1.records[a].id == v0.records[a].id);
                assert(v1.records[b].id == v0.records[b].id);
            }
            let k = index_of(v1.records, id);
            assert(v1.records[k].id@ == id);
            assert(k == i);
        } else if c == 1 {
            lemma_removed(v0, i);
        }
    }
}

/// A retrieval of an ID that no record holds gives nothing and changes
/// nothing.
pub proof fn law_get_missing(
    v0: CenterView,
    v1: CenterView,
    id: Seq<u8>,
    now: i64,
    r: Result<Option<FileItem>, FileCenterError>,
)
    requires
        !has_record(v0.records, id),
        get_post(v0, v1, id, now, r),
    ensures
        r matches Ok(None),
        v1 == v0,
{
}

/// Content stored by a permanent put that created a new file reads back
/// exactly, whether inline or as chunks.
pub proof fn law_round_trip(
    v0: CenterView,
    v1: CenterView,
    v2: CenterView,
    content: Seq<u8>,
    name: Seq<char>,
    mime: Seq<char>,
    now: i64,
    new_id: Seq<u8>,
    r: Result<FileId, FileCenterError>,
    now_get: i64,
    g: Result<Option<FileItem>, FileCenterError>,
)
    requires
        wf(v0),
        wf(v1),
        !has_hash(v0.records, hash_key_of(content)),
        put_post(v0, v1, content, name, mime, now, new_id, r),
        r is Ok,
        get_post(v1, v2, r->Ok_0@, now_get, g),
    ensures
        g matches Ok(Some(item)) && item.file_data.content() == content,
{
    let n = v0.records.len() as int;
    lemma_new_file_chunks(v0, v1, new_id, Some(hash_key_of(content)), content, name, mime, now, None, None);
    lemma_index_of(v1, n, new_id);
}

/// Content stored by a temporary put reads back exactly on a retrieval
/// before it expires.
pub proof fn law_round_trip_temporary(
    v0: CenterView,
    v1: CenterView,
    v2: CenterView,
    content: Seq<u8>,
    name: Seq<char>,
    mime: Seq<char>,
    now: i64,
    new_id: Seq<u8>,
    r: Result<FileId, FileCenterError>,
    now_get: i64,
    g: Result<Option<FileItem>, FileCenterError>,
)
    requires
        wf(v0),
        wf(v1),
        temporary_put_post(v0, v1, content, name, mime, now, new_id, r),
        r is Ok,
        now_get <= expiry_after(now, TEMPORARY_LIFE_TIME),
        get_post(v1, v2, r->Ok_0@, now_get, g),
    ensures
        g matches Ok(Some(item)) && item.file_data.content() == content,
{
    let n = v0.records.len() as int;
    lemma_new_file_chunks(
        v0,
        v1,
        new_id,
        None,
        content,
        name,
        mime,
        now,
        Some(expiry_after(now, TEMPORARY_LIFE_TIME)),
        Some(expiry_after(now, crate::TEMPORARY_CHUNK_LIFE_TIME)),
    );
    lemma_index_of(v1, n, new_id);
}

/// A temporary file is handed out at most once: the retrieval after the
/// first one finds nothing, however soon it comes.
pub proof fn law_temporary_one_shot(
    v0: CenterView,
    v1: CenterView,
    v2: CenterView,
    v3: CenterView,
    content: Seq<u8>,
    name: Seq<char>,
    mime: Seq<char>,
    now: i64,
    new_id: Seq<u8>,
    r: Result<FileId, FileCenterError>,
    now1: i64,
    g1: Result<Option<FileItem>, FileCenterError>,
    now2: i64,
    g2: Result<Option<FileItem>, FileCenterError>,
)
    requires
        wf(v0),
        wf(v1),
        temporary_put_post(v0, v1, content, name, mime, now, new_id, r),
        r is Ok,
        get_post(v1, v2, new_id, now1, g1),
        get_post(v2, v3, new_id, now2, g2),
    ensures
        now1 <= expiry_after(now, TEMPORARY_LIFE_TIME) ==> (g1 matches Ok(Some(_))),
        g2 matches Ok(None),
{
    let n = v0.records.len() as int;
    lemma_index_of(v1, n, new_id);
    lemma_removed(v1, n);
}

/// A new file is stored inline when its size is at most the threshold, and
/// in chunks when it is larger: `threshold` bytes stay inline,
/// `threshold + 1` bytes go to chunks.
pub proof fn law_threshold_boundary(
    v0: CenterView,
    v1: CenterView,
    id: Seq<u8>,
    hash: Option<HashKey>,
    content: Seq<u8>,
    name: Seq<char>,
    mime: Seq<char>,
    now: i64,
    expire_at: Option<i64>,
    chunk_expire_at: Option<i64>,
)
    requires
        inserted(v0, v1, id, hash, content, name, mime, now, expire_at, chunk_expire_at),
    ensures
        content.len() <= v0.threshold ==> v1.records.last().storage is Inline,
        content.len() > v0.threshold ==> v1.records.last().storage is Chunked,
        content.len() == v0.threshold ==> v1.records.last().storage is Inline,
        content.len() == v0.threshold + 1 ==> v1.records.last().storage is Chunked,
{
}

/// Garbage collection removes exactly what no longer belongs: a record
/// whose chunks are all missing, a record with an exhausted count and its
/// chunks, and every chunk whose owner does not exist; a record with a
/// positive count whose content is all there stays, with the same chunks.
pub proof fn law_gc_safety(v0: CenterView, v1: CenterView)
    requires
        wf(v0),
        gc_post(v0, v1),
    ensures
        forall|i: int|
            0 <= i < v0.records.len() && is_dangling(v0.chunks, #[trigger] v0.records[i])
                ==> !has_record(v1.records, v0.records[i].id@),
        forall|i: int|
            0 <= i < v0.records.len() && (#[trigger] v0.records[i]).count <= 0 ==> !has_record(
                v1.records,
                v0.records[i].id@,
            ) && !has_chunk(v1.chunks, v0.records[i].id@),
        forall|j: int|
            0 <= j < v0.chunks.len() && !has_record(v0.records, (#[trigger] v0.chunks[j]).file_id@)
                ==> !has_chunk(v1.chunks, v0.chunks[j].file_id@),
        forall|i: int|
            0 <= i < v0.records.len() && (#[trigger] v0.records[i]).count > 0 && !is_dangling(
                v0.chunks,
                v0.records[i],
            ) ==> v1.records.contains(v0.records[i]) && chunks_of(v1.chunks, v0.records[i].id@)
                == chunks_of(v0.chunks, v0.records[i].id@),
{
    let r1 = v0.records.filter(not_dangling(v0.chunks));
    let c2 = v0.chunks.filter(owner_not_exhausted(r1));
    let r2 = r1.filter(count_positive());
    lemma_filter_wf(v0, not_dangling(v0.chunks));
    let w1 = CenterView { records: r1, ..v0 };
    lemma_filter_wf(w1, count_positive());
    // every record left was a record of `v0` that passed both filters
    assert forall|k: int| 0 <= k < r2.len() implies exists|i: int|
        0 <= i < v0.records.len() && v0.records[i] == (#[trigger] r2[k]) && !is_dangling(
            v0.chunks,
            v0.records[i],
        ) && v0.records[i].count > 0 by {
        let m = lemma_in_filter(r1, count_positive(), k);
        let i = lemma_in_filter(v0.records, not_dangling(v0.chunks), m);
        assert(v0.records[i] == r2[k]);
    }
    // every chunk left belongs to a record left
    assert forall|k: int| 0 <= k < v1.chunks.len() implies has_record(
        r2,
        (#[trigger] v1.chunks[k]).file_id@,
    ) by {
        lemma_in_filter(c2, owner_exists(r2), k);
    }
    assert forall|i: int|
        0 <= i < v0.records.len() && !(#[trigger] v0.records[i].count > 0 && !is_dangling(
            v0.chunks,
            v0.records[i],
        )) implies !has_record(v1.records, v0.records[i].id@) by {
        if has_record(v1.records, v0.records[i].id@) {
            let k = choose|k: int| 0 <= k < r2.len() && (#[trigger] r2[k]).id@ == v0.records[i].id@;
            let o = choose|o: int|
                0 <= o < v0.records.len() && v0.records[o] == (#[trigger] r2[k]) && !is_dangling(
                    v0.chunks,
                    v0.records[o],
                ) && v0.records[o].count > 0;
            assert(v0.records[o].id@ == v0.records[i].id@);
        }
    }
    assert forall|i: int|
        0 <= i < v0.records.len() && (#[trigger] v0.records[i]).count <= 0 implies !has_chunk(
        v1.chunks,
        v0.records[i].id@,
    ) by {
        if has_chunk(v1.chunks, v0.records[i].id@) {
            let k = choose|k: int| 0 <= k < v1.chunks.len() && (#[trigger] v1.chunks[k]).file_id@ == v0.records[i].id@;
            assert(has_record(r2, v1.chunks[k].file_id@));
        }
    }
    assert forall|j: int|
        0 <= j < v0.chunks.len() && !has_record(v0.records, (#[trigger] v0.chunks[j]).file_id@)
            implies !has_chunk(v1.chunks, v0.chunks[j].file_id@) by {
        if has_chunk(v1.chunks, v0.chunks[j].file_id@) {
            let k = choose|k: int| 0 <= k < v1.chunks.len() && (#[trigger] v1.chunks[k]).file_id@ == v0.chunks[j].file_id@;
            assert(has_record(r2, v1.chunks[k].file_id@));
            let m = choose|m: int| 0 <= m < r2.len() && (#[trigger] r2[m]).id@ == v1.chunks[k].file_id@;
            let o = choose|o: int|
                0 <= o < v0.records.len() && v0.records[o] == (#[trigger] r2[m]) && !is_dangling(
                    v0.chunks,
                    v0.records[o],
                ) && v0.records[o].count > 0;
            assert(v0.records[o].id@ == v0.chunks[j].file_id@);
        }
    }
    assert forall|i: int|
        0 <= i < v0.records.len() && (#[trigger] v0.records[i]).count > 0 && !is_dangling(
            v0.chunks,
            v0.records[i],
        ) implies v1.records.contains(v0.records[i]) && chunks_of(v1.chunks, v0.records[i].id@)
        == chunks_of(v0.chunks, v0.records[i].id@) by {
        let rec = v0.records[i];
        let id = rec.id@;
        v0.records.lemma_filter_contains(not_dangling(v0.chunks), i);
        let m = choose|m: int| 0 <= m < r1.len() && r1[m] == rec;
        r1.lemma_filter_contains(count_positive(), m);
        assert(has_record(r2, id)) by {
            let k = choose|k: int| 0 <= k < r2.len() && r2[k] == rec;
        }
        assert forall|x: int| 0 <= x < c2.len() && owned_by(id)(#[trigger] c2[x]) implies owner_exists(
            r2,
        )(c2[x]) by {}
        lemma_filter_absorb(c2, owner_exists(r2), owned_by(id));
        assert forall|x: int|
            0 <= x < v0.chunks.len() && owned_by(id)(#[trigger] v0.chunks[x]) implies owner_not_exhausted(
            r1,
        )(v0.chunks[x]) by {
            if exhausted_owner(r1, id) {
                let e = choose|e: int| 0 <= e < r1.len() && (#[trigger] r1[e]).id@ == id && r1[e].count <= 0;
                assert(r1[e].id@ == r1[m].id@);
            }
        }
        lemma_filter_absorb(v0.chunks, owner_not_exhausted(r1), owned_by(id));
    }
}

/// Two permanent puts of the same new content that race both end with the
/// ID of the put that inserted first, and the record's count is two; the
/// loser's insert conflict is retried, never reported. Shown for the two
/// ways the second put can meet the first: it finds no match before the
/// first put inserts, or it finds the inserted record.
pub proof fn law_concurrent_put_race(m0: KeyIndex, key: HashKey, a: FileId, b: FileId)
    requires
        !m0.contains_key(key),
    ensures
        ({
            // both find nothing, then each tries to insert
            let s1 = find_and_increment(m0, key);
            let s2 = find_and_increment(s1.0, key);
            let s3 = insert_with_key(s2.0, key, a);
            let s4 = insert_with_key(s3.0, key, b);
            let s5 = find_and_increment(s4.0, key);
            &&& dedup_rule(a, s1.1) == DedupAction::Insert
            &&& dedup_rule(b, s2.1) == DedupAction::Insert
            &&& dedup_rule(a, s3.1) == DedupAction::Done(a)
            &&& dedup_rule(b, s4.1) == DedupAction::FindAndIncrement
            &&& dedup_rule(b, s5.1) == DedupAction::Done(a)
            &&& s5.0[key] == (a, 2int)
        }),
        ({
            // the second finds the record the first inserted
            let s1 = find_and_increment(m0, key);
            let s2 = insert_with_key(s1.0, key, a);
            let s3 = find_and_increment(s2.0, key);
            &&& dedup_rule(a, s2.1) == DedupAction::Done(a)
            &&& dedup_rule(b, s3.1) == DedupAction::Done(a)
            &&& s3.0[key] == (a, 2int)
        }),
{
}

/// The reference count of the file with this ID.
pub open spec fn count_of(v: CenterView, id: Seq<u8>) -> i64 {
    v.records[index_of(v.records, id)].count
}

/// The recorded size of the file with this ID.
pub open spec fn size_of(v: CenterView, id: Seq<u8>) -> u64 {
    v.records[index_of(v.records, id)].file_size
}

/// Once no record holds an ID, every later deletion of it reports nothing.
proof fn lemma_deletes_of_missing(
    vs: Seq<CenterView>,
    rs: Seq<Result<Option<u64>, FileCenterError>>,
    id: Seq<u8>,
    start: int,
)
    requires
        vs.len() == rs.len() + 1,
        forall|i: int| 0 <= i < rs.len() ==> delete_post(#[trigger] vs[i], vs[i + 1], id, rs[i]),
        0 <= start < vs.len(),
        !has_record(vs[start].records, id),
    ensures
        forall|i: int| start <= i < rs.len() ==> (#[trigger] rs[i]) matches Ok(None),
    decreases rs.len() - start,
{
    if start < rs.len() {
        assert(delete_post(vs[start], vs[start + 1], id, rs[start]));
        lemma_deletes_of_missing(vs, rs, id, start + 1);
    }
}

/// Successive deletions of a file whose count is `c`: the first `c` each
/// report the file's size, and the `c`-th removes it; every later one
/// reports nothing.
pub proof fn law_n_deletes(
    vs: Seq<CenterView>,
    rs: Seq<Result<Option<u64>, FileCenterError>>,
    id: Seq<u8>,
)
    requires
        vs.len() == rs.len() + 1,
        forall|i: int| 0 <= i < vs.len() ==> wf(#[trigger] vs[i]),
        forall|i: int| 0 <= i < rs.len() ==> delete_post(#[trigger] vs[i], vs[i + 1], id, rs[i]),
        has_record(vs[0].records, id),
        count_of(vs[0], id) >= 1,
    ensures
        forall|i: int|
            0 <= i < rs.len() && i < count_of(vs[0], id) ==> ((#[trigger] rs[i]) matches Ok(Some(size))
                && size == size_of(vs[0], id)),
        forall|i: int| 0 <= i < rs.len() && i >= count_of(vs[0], id) ==> (#[trigger] rs[i]) matches Ok(None),
        rs.len() >= count_of(vs[0], id) ==> !has_record(vs[count_of(vs[0], id) as int].records, id),
    decreases rs.len(),
{
    if rs.len() > 0 {
        let c = count_of(vs[0], id);
        assert(wf(vs[0]));
        assert(delete_post(vs[0], vs[1], id, rs[0]));
        law_delete_counts_down(vs[0], vs[1], id, rs[0]);
        let i0 = index_of(vs[0].records, id);
        if c == 1 {
            lemma_deletes_of_missing(vs, rs, id, 1);
        } else {
            assert(vs[1].records =~= vs[0].records.update(i0, crate::file_center::with_count(vs[0].records[i0], (c - 1) as i64)));
            let i1 = index_of(vs[1].records, id);
            assert(vs[1].records[i1].id@ == id);
            assert(i1 == i0) by {
                assert(vs[1].records[i0].id@ == id);
                assert(wf(vs[1]));
            }
            let tv = vs.drop_first();
            let tr = rs.drop_first();
            assert forall|i: int| 0 <= i < tv.len() implies wf(#[trigger] tv[i]) by {
                assert(tv[i] == vs[i + 1]);
            }
            assert forall|i: int| 0 <= i < tr.len() implies delete_post(#[trigger] tv[i], tv[i + 1], id, tr[i]) by {
                assert(tv[i] == vs[i + 1] && tv[i + 1] == vs[i + 2] && tr[i] == rs[i + 1]);
            }
            law_n_deletes(tv, tr, id);
            assert(count_of(tv[0], id) == c - 1);
            assert(size_of(tv[0], id) == size_of(vs[0], id));
            assert forall|i: int| 0 <= i < rs.len() && i < c implies ((#[trigger] rs[i]) matches Ok(Some(size))
                && size == size_of(vs[0], id)) by {
                if i > 0 {
                    assert(rs[i] == tr[i - 1]);
                }
            }
            assert forall|i: int| 0 <= i < rs.len() && i >= c implies (#[trigger] rs[i]) matches Ok(None) by {
                assert(rs[i] == tr[i - 1]);
            }
            if rs.len() >= c {
                assert(vs[c as int] == tv[c - 1]);
            }
        }
    }
}

/// Successive permanent puts of the same content all return one ID; the
/// count of that file grows by one with each put after the first, and a
/// first put that created the file set it to one.
pub proof fn law_n_puts(
    vs: Seq<CenterView>,
    rs: Seq<Result<FileId, FileCenterError>>,
    content: Seq<u8>,
    names: Seq<Seq<char>>,
    mimes: Seq<Seq<char>>,
    nows: Seq<i64>,
    new_ids: Seq<Seq<u8>>,
)
    requires
        rs.len() >= 1,
        vs.len() == rs.len() + 1,
        names.len() == rs.len() && mimes.len() == rs.len() && nows.len() == rs.len()
            && new_ids.len() == rs.len(),
        forall|i: int| 0 <= i < vs.len() ==> wf(#[trigger] vs[i]),
        forall|i: int|
            0 <= i < rs.len() ==> put_post(
                #[trigger] vs[i],
                vs[i + 1],
                content,
                names[i],
                mimes[i],
                nows[i],
                new_ids[i],
                rs[i],
            ),
        forall|i: int| 0 <= i < rs.len() ==> (#[trigger] rs[i]) is Ok,
    ensures
        forall|i: int| 0 <= i < rs.len() ==> (#[trigger] rs[i])->Ok_0@ == rs[0]->Ok_0@,
        has_record(vs.last().records, rs[0]->Ok_0@),
        count_of(vs.last(), rs[0]->Ok_0@) == count_of(vs[1], rs[0]->Ok_0@) + rs.len() - 1,
        !has_hash(vs[0].records, hash_key_of(content)) ==> count_of(vs[1], rs[0]->Ok_0@) == 1,
    decreases rs.len(),
{
    let id = rs[0]->Ok_0@;
    let n = rs.len() as int;
    assert(wf(vs[0]) && wf(vs[1]));
    assert(put_post(vs[0], vs[1], content, names[0], mimes[0], nows[0], new_ids[0], rs[0]));
    let key = hash_key_of(content);
    if !has_hash(vs[0].records, key) {
        let m = vs[0].records.len() as int;
        lemma_index_of(vs[1], m, id);
    }
    if n == 1 {
        let i: int = if has_hash(vs[0].records, key) {
            index_of_hash(vs[0].records, key)
        } else {
            vs[0].records.len() as int
        };
        assert(vs[1].records[i].id@ == id);
        lemma_index_of(vs[1], i, id);
    } else {
        let pv = vs.drop_last();
        let pr = rs.drop_last();
        assert forall|i: int| 0 <= i < pv.len() implies wf(#[trigger] pv[i]) by {
            assert(pv[i] == vs[i]);
        }
        assert forall|i: int| 0 <= i < pr.len() implies put_post(
            #[trigger] pv[i],
            pv[i + 1],
            content,
            names.drop_last()[i],
            mimes.drop_last()[i],
            nows.drop_last()[i],
            new_ids.drop_last()[i],
            pr[i],
        ) by {
            assert(pv[i] == vs[i] && pv[i + 1] == vs[i + 1] && pr[i] == rs[i]);
        }
        assert forall|i: int| 0 <= i < pr.len() implies (#[trigger] pr[i]) is Ok by {
            assert(pr[i] == rs[i]);
        }
        law_n_puts(pv, pr, content, names.drop_last(), mimes.drop_last(), nows.drop_last(), new_ids.drop_last());
        assert(pr[0] == rs[0]);
        assert(pv.last() == vs[n - 1]);
        assert(put_post(vs[n - 2], vs[n - 1], content, names[n - 2], mimes[n - 2], nows[n - 2], new_ids[n - 2], rs[n - 2]));
        assert(put_post(vs[n - 1], vs[n], content, names[n - 1], mimes[n - 1], nows[n - 1], new_ids[n - 1], rs[n - 1]));
        assert(wf(vs[n - 2]) && wf(vs[n - 1]));
        assert(rs[n - 2] == pr[n - 2]);
        law_dedup_same_id(
            vs[n - 2],
            vs[n - 1],
            vs[n],
            content,
            names[n - 2],
            mimes[n - 2],
            nows[n - 2],
            new_ids[n - 2],
            rs[n - 2],
            names[n - 1],
            mimes[n - 1],
            nows[n - 1],
            new_ids[n - 1],
            rs[n - 1],
        );
        assert forall|i: int| 0 <= i < rs.len() implies (#[trigger] rs[i])->Ok_0@ == rs[0]->Ok_0@ by {
            if i < n - 1 {
                assert(rs[i] == pr[i]);
            }
        }
    }
}

/// Dedup idempotence: `n` permanent puts of content that no file held yet
/// all return one ID and leave its count at `n`; then `n` deletions each
/// report the file's size, the `n`-th removes it, and a further deletion or
/// retrieval finds nothing.
pub proof fn law_dedup_idempotence(
    puts: Seq<CenterView>,
    rs: Seq<Result<FileId, FileCenterError>>,
    content: Seq<u8>,
    names: Seq<Seq<char>>,
    mimes: Seq<Seq<char>>,
    nows: Seq<i64>,
    new_ids: Seq<Seq<u8>>,
    deletes: Seq<CenterView>,
    ds: Seq<Result<Option<u64>, FileCenterError>>,
)
    requires
        rs.len() >= 1,
        puts.len() == rs.len() + 1,
        names.len() == rs.len() && mimes.len() == rs.len() && nows.len() == rs.len()
            && new_ids.len() == rs.len(),
        forall|i: int| 0 <= i < puts.len() ==> wf(#[trigger] puts[i]),
        !has_hash(puts[0].records, hash_key_of(content)),
        forall|i: int|
            0 <= i < rs.len() ==> put_post(
                #[trigger] puts[i],
                puts[i + 1],
                content,
                names[i],
                mimes[i],
                nows[i],
                new_ids[i],
                rs[i],
            ),
        forall|i: int| 0 <= i < rs.len() ==> (#[trigger] rs[i]) is Ok,
        deletes.len() == ds.len() + 1,
        deletes[0] == puts.last(),
        forall|i: int| 0 <= i < deletes.len() ==> wf(#[trigger] deletes[i]),
        forall|i: int| 0 <= i < ds.len() ==> delete_post(#[trigger] deletes[i], deletes[i + 1], rs[0]->Ok_0@, ds[i]),
    ensures
        forall|i: int| 0 <= i < rs.len() ==> (#[trigger] rs[i])->Ok_0@ == rs[0]->Ok_0@,
        forall|i: int| 0 <= i < ds.len() && i < rs.len() ==> ((#[trigger] ds[i]) matches Ok(Some(size))
            && size == content.len()),
        forall|i: int| 0 <= i < ds.len() && i >= rs.len() ==> (#[trigger] ds[i]) matches Ok(None),
        ds.len() >= rs.len() ==> !has_record(deletes[rs.len() as int].records, rs[0]->Ok_0@),
{
    let id = rs[0]->Ok_0@;
    law_n_puts(puts, rs, content, names, mimes, nows, new_ids);
    // the file's size is the content's, from its creation on
    let m = puts[0].records.len() as int;
    assert(put_post(puts[0], puts[1], content, names[0], mimes[0], nows[0], new_ids[0], rs[0]));
    lemma_index_of(puts[1], m, id);
    lemma_size_kept(puts, rs, content, names, mimes, nows, new_ids, id, 1);
    law_n_deletes(deletes, ds, id);
}

/// Later puts of the same content leave the file's recorded size as it was.
proof fn lemma_size_kept(
    vs: Seq<CenterView>,
    rs: Seq<Result<FileId, FileCenterError>>,
    content: Seq<u8>,
    names: Seq<Seq<char>>,
    mimes: Seq<Seq<char>>,
    nows: Seq<i64>,
    new_ids: Seq<Seq<u8>>,
    id: Seq<u8>,
    k: int,
)
    requires
        1 <= k < vs.len(),
        vs.len() == rs.len() + 1,
        names.len() == rs.len() && mimes.len() == rs.len() && nows.len() == rs.len()
            && new_ids.len() == rs.len(),
        forall|i: int| 0 <= i < vs.len() ==> wf(#[trigger] vs[i]),
        forall|i: int|
            0 <= i < rs.len() ==> put_post(
                #[trigger] vs[i],
                vs[i + 1],
                content,
                names[i],
                mimes[i],
                nows[i],
                new_ids[i],
                rs[i],
            ),
        forall|i: int| 0 <= i < rs.len() ==> (#[trigger] rs[i]) is Ok && rs[i]->Ok_0@ == id,
        has_record(vs[k].records, id),
        size_of(vs[k], id) == content.len(),
    ensures
        has_record(vs.last().records, id),
        size_of(vs.last(), id) == content.len(),
    decreases vs.len() - k,
{
    if k < vs.len() - 1 {
        assert(wf(vs[k]) && wf(vs[k + 1]));
        assert(put_post(vs[k], vs[k + 1], content, names[k], mimes[k], nows[k], new_ids[k], rs[k]));
        let key = hash_key_of(content);
        let ik = index_of(vs[k].records, id);
        assert(vs[k].records[ik].id@ == id);
        // the put joined the record that holds the key, which is this file
        assert(has_hash(vs[k].records, key)) by {
            if !has_hash(vs[k].records, key) {
                assert(vs[k + 1].records.last().id@ == new_ids[k]);
                assert(rs[k]->Ok_0@ == new_ids[k]);
                assert(!has_record(vs[k].records, new_ids[k]));
            }
        }
        let h = index_of_hash(vs[k].records, key);
        assert(vs[k].records[h].id@ == rs[k]->Ok_0@);
        assert(h == ik);
        assert(vs[k + 1].records[ik].id@ == id);
        lemma_index_of(vs[k + 1], ik, id);
        lemma_size_kept(vs, rs, content, names, mimes, nows, new_ids, id, k + 1);
    }
}

/// ID tokens are reversible: decoding the token of an ID under the same key
/// gives that ID back.
pub proof fn law_token_round_trip(
    key: Seq<char>,
    id: FileId,
    token: Seq<char>,
    r: Result<FileId, FileCenterError>,
)
    requires
        token == url_token(key, id@),
        decrypt_post(key, token, r),
    ensures
        r matches Ok(back) && back@ == id@,
{
    id.lemma_len();
}

} // verus!
