//! The content of a retrieved file: a buffer, or a stream of chunks.
use vstd::prelude::*;

use crate::chunking::{joined, views, lemma_joined_push, lemma_views_push};

verus! {

/// An ordered, single-pass sequence of the chunks of one file. It is not
/// restartable: what has been taken is gone.
#[derive(Debug)]
pub struct ChunkStream {
    chunks: Vec<Vec<u8>>,
    pos: usize,
}

impl View for ChunkStream {
    type V = Seq<Seq<u8>>;

    /// The chunks not yet taken, in order.
    closed spec fn view(&self) -> Seq<Seq<u8>> {
        views(self.chunks@.subrange(self.pos as int, self.chunks@.len() as int))
    }
}

impl ChunkStream {
    closed spec fn wf(&self) -> bool {
        self.pos <= self.chunks@.len()
    }

    /// A stream over these chunks, in this order.
    pub fn new(chunks: Vec<Vec<u8>>) -> (r: ChunkStream)
        ensures
            r@ == views(chunks@),
            r.is_valid(),
    {
        let r = ChunkStream { chunks, pos: 0 };
        assert(r.chunks@.subrange(0, r.chunks@.len() as int) =~= r.chunks@);
        r
    }

    /// The stream's own consistency, kept by every method.
    pub closed spec fn is_valid(&self) -> bool {
        self.wf()
    }

    /// Takes the next chunk, if any is left.
    pub fn next_chunk(&mut self) -> (r: Option<Vec<u8>>)
        requires
            old(self).is_valid(),
        ensures
            final(self).is_valid(),
            old(self)@.len() == 0 ==> r is None && final(self)@ == old(self)@,
            old(self)@.len() > 0 ==> (r matches Some(c) && c@ == old(self)@[0]),
            old(self)@.len() > 0 ==> final(self)@ == old(self)@.drop_first(),
    {
        if self.pos >= self.chunks.len() {
            return None;
        }
        let c = self.chunks[self.pos].clone();
        proof {
            assert(c@ =~= self.chunks@[self.pos as int]@);
        }
        let ghost before = self.chunks@.subrange(self.pos as int, self.chunks@.len() as int);
        self.pos = self.pos + 1;
        assert(views(self.chunks@.subrange(self.pos as int, self.chunks@.len() as int)) =~= views(
            before,
        ).drop_first());
        Some(c)
    }

    /// All the bytes left in the stream, in order.
    pub fn into_vec(self) -> (r: Vec<u8>)
        requires
            self.is_valid(),
        ensures
            r@ == joined(self@),
    {
        let mut out: Vec<u8> = Vec::new();
        let mut i: usize = self.pos;
        let ghost start = self.pos as int;
        while i < self.chunks.len()
            invariant
                start <= i <= self.chunks@.len(),
                start == self.pos,
                out@ == joined(views(self.chunks@.subrange(start, i as int))),
            decreases self.chunks@.len() - i,
        {
            proof {
                assert(self.chunks@.subrange(start, i + 1) =~= self.chunks@.subrange(
                    start,
                    i as int,
                ).push(self.chunks@[i as int]));
                lemma_views_push(self.chunks@.subrange(start, i as int), self.chunks@[i as int]);
                lemma_joined_push(
                    views(self.chunks@.subrange(start, i as int)),
                    self.chunks@[i as int]@,
                );
            }
            let ghost before = out@;
            out.extend_from_slice(self.chunks[i].as_slice());
            assert(out@ =~= before + self.chunks@[i as int]@);
            i = i + 1;
        }
        out
    }
}

/// The content of a retrieved file: in memory, or as a stream of chunks.
#[derive(Debug)]
pub enum FileData {
    /// Content that was stored inline.
    Buffer(Vec<u8>),
    /// Content that was stored in chunks, in chunk order.
    Stream(ChunkStream),
}

impl FileData {
    /// The bytes this value stands for.
    pub open spec fn content(&self) -> Seq<u8> {
        match self {
            FileData::Buffer(v) => v@,
            FileData::Stream(s) => joined(s@),
        }
    }

    pub open spec fn is_valid(&self) -> bool {
        match self {
            FileData::Buffer(_) => true,
            FileData::Stream(s) => s.is_valid(),
        }
    }

    /// Turns the content into one buffer, reading a stream to its end.
    pub fn into_vec(self) -> (r: Vec<u8>)
        requires
            self.is_valid(),
        ensures
            r@ == self.content(),
    {
        match self {
            FileData::Buffer(v) => v,
            FileData::Stream(s) => s.into_vec(),
        }
    }
}

} // verus!
