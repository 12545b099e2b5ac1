//! How content is laid out in chunks: splitting a buffer, joining chunks,
//! and splitting a stream while it is read.
use vstd::prelude::*;
use vstd::slice::{slice_subrange, slice_to_vec};

verus! {

/// The concatenation of a sequence of chunks, in order.
pub open spec fn joined(cs: Seq<Seq<u8>>) -> Seq<u8>
    decreases cs.len(),
{
    if cs.len() == 0 {
        Seq::empty()
    } else {
        joined(cs.drop_last()) + cs.last()
    }
}

/// The byte sequences held by a sequence of buffers.
pub open spec fn views(cs: Seq<Vec<u8>>) -> Seq<Seq<u8>> {
    cs.map_values(|c: Vec<u8>| c@)
}

/// `cs` is how content is laid out in chunks of `size` bytes: joined they
/// give the content, every chunk but the last holds exactly `size` bytes,
/// the last holds `1..=size`, and empty content is one empty chunk.
pub open spec fn is_chunking(cs: Seq<Seq<u8>>, content: Seq<u8>, size: nat) -> bool {
    &&& cs.len() >= 1
    &&& joined(cs) == content
    &&& forall|i: int| 0 <= i < cs.len() - 1 ==> #[trigger] cs[i].len() == size
    &&& content.len() == 0 ==> cs.len() == 1
    &&& content.len() > 0 ==> 0 < cs.last().len() <= size
}

/// Content of `size` bytes is kept in chunks, not inline, exactly when it is
/// larger than the threshold.
pub open spec fn goes_to_chunks(size: nat, threshold: nat) -> bool {
    size > threshold
}

pub proof fn lemma_joined_push(cs: Seq<Seq<u8>>, c: Seq<u8>)
    ensures
        joined(cs.push(c)) == joined(cs) + c,
{
    assert(cs.push(c).drop_last() =~= cs);
}

pub proof fn lemma_views_push(cs: Seq<Vec<u8>>, c: Vec<u8>)
    ensures
        views(cs.push(c)) == views(cs).push(c@),
{
    assert(views(cs.push(c)) =~= views(cs).push(c@));
}

/// Whether content of `file_size` bytes is stored in chunks under `threshold`.
pub fn is_stream_size(file_size: u64, threshold: u32) -> (r: bool)
    ensures
        r == goes_to_chunks(file_size as nat, threshold as nat),
{
    file_size > threshold as u64
}

/// Splits content into chunks of `chunk_size` bytes, the last one possibly
/// shorter; empty content gives one empty chunk.
pub fn split_into_chunks(data: &[u8], chunk_size: usize) -> (r: Vec<Vec<u8>>)
    requires
        chunk_size > 0,
    ensures
        is_chunking(views(r@), data@, chunk_size as nat),
        data@.len() > 0 ==> r@.len() <= data@.len(),
{
    let len = data.len();
    let mut out: Vec<Vec<u8>> = Vec::new();
    let mut pos: usize = 0;
    while pos < len
        invariant
            len == data@.len(),
            chunk_size > 0,
            pos <= len,
            out@.len() <= pos,
            joined(views(out@)) == data@.subrange(0, pos as int),
            pos == 0 <==> out@.len() == 0,
            pos < len ==> forall|i: int| 0 <= i < out@.len() ==> #[trigger] out@[i]@.len() == chunk_size,
            forall|i: int| 0 <= i < out@.len() - 1 ==> #[trigger] out@[i]@.len() == chunk_size,
            out@.len() > 0 ==> 0 < out@.last()@.len() <= chunk_size,
        decreases len - pos,
    {
        let end: usize = if len - pos > chunk_size {
            pos + chunk_size
        } else {
            len
        };
        let chunk = slice_to_vec(slice_subrange(data, pos, end));
        proof {
            lemma_views_push(out@, chunk);
            lemma_joined_push(views(out@), chunk@);
            assert(data@.subrange(0, end as int) =~= data@.subrange(0, pos as int) + chunk@);
        }
        out.push(chunk);
        pos = end;
    }
    if len == 0 {
        let empty: Vec<u8> = Vec::new();
        proof {
            lemma_views_push(out@, empty);
            lemma_joined_push(views(out@), empty@);
            assert(data@ =~= Seq::<u8>::empty());
        }
        out.push(empty);
    }
    assert(data@.subrange(0, len as int) =~= data@);
    out
}

/// Concatenates chunks in order.
pub fn join_chunks(chunks: &Vec<Vec<u8>>) -> (r: Vec<u8>)
    ensures
        r@ == joined(views(chunks@)),
{
    let mut out: Vec<u8> = Vec::new();
    let mut i: usize = 0;
    while i < chunks.len()
        invariant
            i <= chunks@.len(),
            out@ == joined(views(chunks@.subrange(0, i as int))),
        decreases chunks@.len() - i,
    {
        proof {
            assert(chunks@.subrange(0, i + 1) =~= chunks@.subrange(0, i as int).push(chunks@[i as int]));
            lemma_views_push(chunks@.subrange(0, i as int), chunks@[i as int]);
            lemma_joined_push(views(chunks@.subrange(0, i as int)), chunks@[i as int]@);
        }
        let ghost before = out@;
        out.extend_from_slice(chunks[i].as_slice());
        assert(out@ =~= before + chunks@[i as int]@);
        i = i + 1;
    }
    assert(chunks@.subrange(0, chunks@.len() as int) =~= chunks@);
    out
}

/// Splits a stream of bytes, fed in pieces of any size, into chunks of a
/// fixed size while it is read. It holds less than one chunk of pending
/// bytes besides the full chunks not yet taken.
pub struct ChunkWriter {
    chunk_size: usize,
    ready: Vec<Vec<u8>>,
    pending: Vec<u8>,
    any_taken: bool,
    fed: Ghost<Seq<u8>>,
    taken: Ghost<Seq<Seq<u8>>>,
}

impl ChunkWriter {
    /// Every byte fed so far, in order.
    pub closed spec fn fed(&self) -> Seq<u8> {
        self.fed@
    }

    /// The chunks handed out so far, in order.
    pub closed spec fn taken(&self) -> Seq<Seq<u8>> {
        self.taken@
    }

    /// The chunk size.
    pub closed spec fn size(&self) -> nat {
        self.chunk_size as nat
    }

    /// The number of bytes held but not yet handed out.
    pub closed spec fn held(&self) -> nat {
        (joined(views(self.ready@)).len() + self.pending@.len()) as nat
    }

    /// The writer's invariant: what was taken, what is ready and what is
    /// pending make up what was fed; all chunks are full; less than one
    /// chunk is pending.
    pub closed spec fn is_valid(&self) -> bool {
        &&& self.chunk_size > 0
        &&& joined(self.taken@) + joined(views(self.ready@)) + self.pending@ == self.fed@
        &&& forall|i: int| 0 <= i < self.taken@.len() ==> (#[trigger] self.taken@[i]).len() == self.chunk_size
        &&& forall|i: int| 0 <= i < self.ready@.len() ==> (#[trigger] self.ready@[i])@.len() == self.chunk_size
        &&& self.pending@.len() < self.chunk_size
        &&& self.any_taken == (self.taken@.len() > 0)
    }

    /// A writer of chunks of `chunk_size` bytes, fed nothing yet.
    pub fn new(chunk_size: usize) -> (r: ChunkWriter)
        requires
            chunk_size > 0,
        ensures
            r.is_valid(),
            r.fed() == Seq::<u8>::empty(),
            r.taken() == Seq::<Seq<u8>>::empty(),
            r.size() == chunk_size,
    {
        let r = ChunkWriter {
            chunk_size,
            ready: Vec::new(),
            pending: Vec::new(),
            any_taken: false,
            fed: Ghost(Seq::empty()),
            taken: Ghost(Seq::empty()),
        };
        assert(joined(views(r.ready@)) =~= Seq::<u8>::empty());
        assert(joined(r.taken@) + joined(views(r.ready@)) + r.pending@ =~= r.fed@);
        r
    }

    /// Feeds the next piece of the stream.
    pub fn push(&mut self, piece: &[u8])
        requires
            old(self).is_valid(),
        ensures
            final(self).is_valid(),
            final(self).fed() == old(self).fed() + piece@,
            final(self).taken() == old(self).taken(),
            final(self).size() == old(self).size(),
    {
        let ghost start = self.fed@;
        let mut i: usize = 0;
        while i < piece.len()
            invariant
                self.is_valid(),
                i <= piece@.len(),
                self.fed@ == start + piece@.subrange(0, i as int),
                self.taken@ == old(self).taken(),
                self.chunk_size == old(self).size(),
            decreases piece@.len() - i,
        {
            let ghost before_pending = self.pending@;
            self.pending.push(piece[i]);
            self.fed = Ghost(self.fed@.push(piece@[i as int]));
            assert(start + piece@.subrange(0, i + 1) =~= (start + piece@.subrange(0, i as int)).push(
                piece@[i as int],
            ));
            assert(joined(self.taken@) + joined(views(self.ready@)) + self.pending@ =~= self.fed@);
            if self.pending.len() == self.chunk_size {
                let mut full: Vec<u8> = Vec::new();
                std::mem::swap(&mut full, &mut self.pending);
                let ghost before_ready = self.ready@;
                self.ready.push(full);
                proof {
                    lemma_views_push(before_ready, full);
                    lemma_joined_push(views(before_ready), full@);
                    assert(joined(self.taken@) + joined(views(self.ready@)) + self.pending@
                        =~= self.fed@);
                }
            }
            i = i + 1;
        }
        assert(piece@.subrange(0, piece@.len() as int) =~= piece@);
    }

    /// Hands out the full chunks written so far.
    pub fn take_ready(&mut self) -> (r: Vec<Vec<u8>>)
        requires
            old(self).is_valid(),
        ensures
            final(self).is_valid(),
            final(self).fed() == old(self).fed(),
            final(self).taken() == old(self).taken() + views(r@),
            final(self).size() == old(self).size(),
            forall|i: int| 0 <= i < r@.len() ==> (#[trigger] r@[i])@.len() == old(self).size(),
            final(self).held() < final(self).size(),
    {
        let mut out: Vec<Vec<u8>> = Vec::new();
        std::mem::swap(&mut out, &mut self.ready);
        self.any_taken = self.any_taken || out.len() > 0;
        proof {
            lemma_joined_concat(self.taken@, views(out@));
            self.taken = Ghost(self.taken@ + views(out@));
            assert(joined(views(self.ready@)) =~= Seq::<u8>::empty());
            assert(joined(self.taken@) + joined(views(self.ready@)) + self.pending@ =~= self.fed@);
            assert forall|i: int| 0 <= i < self.taken@.len() implies (#[trigger] self.taken@[i]).len()
                == self.chunk_size by {
                if i >= old(self).taken().len() {
                    assert(self.taken@[i] == out@[i - old(self).taken().len()]@);
                }
            }
        }
        out
    }

    /// Ends the stream: hands out the remaining chunks, the last one
    /// possibly shorter, so that together with the chunks taken before they
    /// lay out all that was fed.
    pub fn finish(self) -> (r: Vec<Vec<u8>>)
        requires
            self.is_valid(),
        ensures
            is_chunking(self.taken() + views(r@), self.fed(), self.size()),
    {
        let ghost taken = self.taken@;
        let ghost size = self.chunk_size as nat;
        let mut out = self.ready;
        let ghost ready = out@;
        let pending = self.pending;
        let ghost pv = pending@;
        if pending.len() > 0 || (out.len() == 0 && !self.any_taken) {
            proof {
                lemma_views_push(ready, pending);
                lemma_joined_push(views(ready), pv);
            }
            out.push(pending);
        } else {
            assert(pv =~= Seq::<u8>::empty());
            assert(joined(views(ready)) + pv =~= joined(views(ready)));
        }
        proof {
            let all = taken + views(out@);
            lemma_joined_concat(taken, views(out@));
            assert(joined(all) =~= self.fed@);
            assert forall|i: int| 0 <= i < all.len() - 1 implies #[trigger] all[i].len() == size by {
                if i < taken.len() {
                    assert(all[i] == taken[i]);
                } else {
                    assert(all[i] == out@[i - taken.len()]@);
                    assert(i - taken.len() < ready.len());
                    assert(out@[i - taken.len()] == ready[i - taken.len()]);
                }
            }
            // full chunks are never empty, so an empty stream had none
            if taken.len() > 0 {
                lemma_joined_len_ge_last(taken);
            }
            if ready.len() > 0 {
                lemma_joined_len_ge_last(views(ready));
                assert(views(ready).last() == ready.last()@);
            }
            if self.fed@.len() > 0 {
                if pv.len() == 0 {
                    if ready.len() > 0 {
                        assert(all.last() == ready.last()@);
                    } else {
                        assert(all.last() == taken.last());
                    }
                }
            }
        }
        out
    }
}

/// The concatenation is at least as long as the last chunk.
pub proof fn lemma_joined_len_ge_last(cs: Seq<Seq<u8>>)
    requires
        cs.len() > 0,
    ensures
        joined(cs).len() >= cs.last().len(),
{
}

/// Joining two sequences of chunks one after the other.
pub proof fn lemma_joined_concat(a: Seq<Seq<u8>>, b: Seq<Seq<u8>>)
    ensures
        joined(a + b) == joined(a) + joined(b),
    decreases b.len(),
{
    if b.len() == 0 {
        assert(a + b =~= a);
        assert(joined(b) =~= Seq::<u8>::empty());
        assert(joined(a) + joined(b) =~= joined(a));
    } else {
        lemma_joined_concat(a, b.drop_last());
        assert((a + b).drop_last() =~= a + b.drop_last());
        assert((a + b).last() == b.last());
        assert(joined(a) + joined(b) =~= joined(a) + joined(b.drop_last()) + b.last());
    }
}

} // verus!
