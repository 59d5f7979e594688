//! Chunks of what a reader delivers, without holding the whole input.
use crate::chunking::fixed_size::joined;
use crate::chunking::fixed_size::joined_prepend;
use vstd::prelude::*;

verus! {

/// The chunks of successive reads, each given by the buffer after the read and how many bytes the
/// read delivered. A read without bytes ends the input.
pub open spec fn read_chunks(reads: Seq<(Seq<u8>, int)>) -> Seq<Seq<u8>>
    decreases reads.len(),
{
    if reads.len() == 0 || reads[0].1 == 0 {
        Seq::empty()
    } else {
        seq![reads[0].0.take(reads[0].1)] + read_chunks(reads.drop_first())
    }
}

/// Whether the reads are those of an input from `from` to its end, into buffers of one size: each
/// delivers some of the bytes that come next, however few, and the last one finds none left.
pub open spec fn reads_through(
    input: Seq<u8>,
    from: int,
    size: int,
    reads: Seq<(Seq<u8>, int)>,
) -> bool
    decreases reads.len(),
{
    &&& reads.len() > 0
    &&& reads[0].0.len() == size
    &&& 0 <= reads[0].1 <= size
    &&& from + reads[0].1 <= input.len()
    &&& reads[0].0.take(reads[0].1) == input.subrange(from, from + reads[0].1)
    &&& if reads[0].1 == 0 {
        from == input.len() && reads.len() == 1
    } else {
        reads_through(input, from + reads[0].1, size, reads.drop_first())
    }
}

/// The chunks of successive reads put together are what was read, whatever length each read had;
/// no chunk is empty or longer than the buffer.
pub proof fn read_chunks_cover(
    input: Seq<u8>,
    from: int,
    size: int,
    reads: Seq<(Seq<u8>, int)>,
)
    requires
        0 <= from <= input.len(),
        reads_through(input, from, size, reads),
    ensures
        joined(read_chunks(reads)) == input.subrange(from, input.len() as int),
        read_chunks(reads).len() == reads.len() - 1,
        read_chunks(reads).len() <= input.len() - from,
        forall|i: int|
            0 <= i < read_chunks(reads).len() ==> 0 < (#[trigger] read_chunks(reads)[i]).len()
                <= size,
    decreases reads.len(),
{
    let n = reads[0].1;
    if n == 0 {
        assert(input.subrange(from, input.len() as int) =~= Seq::<u8>::empty());
    } else {
        let rest = read_chunks(reads.drop_first());
        read_chunks_cover(input, from + n, size, reads.drop_first());
        joined_prepend(reads[0].0.take(n), rest);
        assert(input.subrange(from, from + n) + input.subrange(from + n, input.len() as int)
            =~= input.subrange(from, input.len() as int));
        assert forall|i: int| 0 <= i < read_chunks(reads).len() implies 0 < (
        #[trigger] read_chunks(reads)[i]).len() <= size by {
            if i > 0 {
                assert(read_chunks(reads)[i] == rest[i - 1]);
            }
        }
    }
}

/// A reader and the size of the chunks to take from it.
pub struct StreamingChunker<R> {
    reader: R,
    chunk_size: usize,
}

impl<R> StreamingChunker<R> {
    /// The reader.
    pub closed spec fn source(&self) -> R {
        self.reader
    }

    /// The chunk size.
    pub closed spec fn size(&self) -> usize {
        self.chunk_size
    }

    pub fn new(reader: R, chunk_size: usize) -> (out: Self)
        requires
            chunk_size > 0,
        ensures
            out.source() == reader,
            out.size() == chunk_size,
    {
        StreamingChunker { reader, chunk_size }
    }

    /// A buffer of the chunk size, filled with zeros, for the next read.
    pub fn buffer(&self) -> (out: Vec<u8>)
        ensures
            out@ == Seq::new(self.size() as nat, |i: int| 0u8),
    {
        let mut out: Vec<u8> = Vec::new();
        while out.len() < self.chunk_size
            invariant
                out@.len() <= self.chunk_size,
                forall|i: int| 0 <= i < out@.len() ==> out@[i] == 0u8,
            decreases self.chunk_size - out@.len(),
        {
            out.push(0u8);
        }
        assert(out@ =~= Seq::new(self.size() as nat, |i: int| 0u8));
        out
    }

    /// The chunk that a read of `read` bytes into `buffer` delivered, or `None` at the end of the
    /// input.
    pub fn chunk_of(&self, buffer: Vec<u8>, read: usize) -> (out: Option<Vec<u8>>)
        requires
            read <= buffer@.len(),
        ensures
            out is None <==> read == 0,
            out matches Some(c) ==> c@ == buffer@.take(read as int),
    {
        if read == 0 {
            return None;
        }
        let mut chunk = buffer;
        chunk.truncate(read);
        assert(chunk@ =~= buffer@.take(read as int));
        Some(chunk)
    }

    /// Access to the reader for the next read.
    pub fn reader_mut(&mut self) -> (out: &mut R)
        ensures
            *out == old(self).source(),
            final(self).source() == *final(out),
            final(self).size() == old(self).size(),
    {
        &mut self.reader
    }

    pub fn into_inner(self) -> (out: R)
        ensures
            out == self.source(),
    {
        self.reader
    }
}

} // verus!
