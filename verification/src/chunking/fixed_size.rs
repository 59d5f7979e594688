//! Cutting a buffer into pieces of one size.
use vstd::prelude::*;

verus! {

/// Where the piece that starts at `from` ends.
pub open spec fn fixed_end(len: int, chunk_size: int, from: int) -> int {
    if from + chunk_size <= len {
        from + chunk_size
    } else {
        len
    }
}

/// The pieces of `data` from `from` on.
pub open spec fn fixed_chunks(data: Seq<u8>, chunk_size: int, from: int) -> Seq<Seq<u8>>
    decreases data.len() - from,
{
    if chunk_size <= 0 || from < 0 || from >= data.len() {
        Seq::empty()
    } else {
        let end = fixed_end(data.len() as int, chunk_size, from);
        seq![data.subrange(from, end)] + fixed_chunks(data, chunk_size, end)
    }
}

/// The bytes of a list of pieces, one after the other.
pub open spec fn joined(pieces: Seq<Seq<u8>>) -> Seq<u8>
    decreases pieces.len(),
{
    if pieces.len() == 0 {
        Seq::empty()
    } else {
        pieces[0] + joined(pieces.drop_first())
    }
}

/// Joining after putting a piece in front.
pub proof fn joined_prepend(first: Seq<u8>, rest: Seq<Seq<u8>>)
    ensures
        joined(seq![first] + rest) == first + joined(rest),
{
    assert((seq![first] + rest).drop_first() =~= rest);
}

/// Joining after putting a piece at the end.
pub proof fn joined_append(front: Seq<Seq<u8>>, last: Seq<u8>)
    ensures
        joined(front.push(last)) == joined(front) + last,
    decreases front.len(),
{
    if front.len() == 0 {
        assert(front.push(last) =~= seq![last] + Seq::<Seq<u8>>::empty());
        joined_prepend(last, Seq::empty());
        assert(last + Seq::<u8>::empty() =~= last);
        assert(joined(front) + last =~= last);
    } else {
        assert(front.push(last).drop_first() =~= front.drop_first().push(last));
        joined_append(front.drop_first(), last);
        assert(front[0] + (joined(front.drop_first()) + last) =~= joined(front) + last);
    }
}

/// The pieces put together again are the data, and every piece but the last one has the chunk
/// size; the last one is not empty and no longer than that.
pub proof fn fixed_chunks_cover(data: Seq<u8>, chunk_size: int, from: int)
    requires
        chunk_size > 0,
        0 <= from <= data.len(),
    ensures
        joined(fixed_chunks(data, chunk_size, from)) == data.subrange(from, data.len() as int),
        forall|i: int|
            0 <= i < fixed_chunks(data, chunk_size, from).len() ==> 0 < (
            #[trigger] fixed_chunks(data, chunk_size, from)[i]).len() <= chunk_size,
        forall|i: int|
            0 <= i < fixed_chunks(data, chunk_size, from).len() - 1 ==> (
            #[trigger] fixed_chunks(data, chunk_size, from)[i]).len() == chunk_size,
    decreases data.len() - from,
{
    if from < data.len() {
        let end = fixed_end(data.len() as int, chunk_size, from);
        fixed_chunks_cover(data, chunk_size, end);
        let rest = fixed_chunks(data, chunk_size, end);
        joined_prepend(data.subrange(from, end), rest);
        assert(data.subrange(from, end) + data.subrange(end, data.len() as int) =~= data.subrange(
            from,
            data.len() as int,
        ));
        let all = fixed_chunks(data, chunk_size, from);
        assert forall|i: int| 0 <= i < all.len() implies 0 < (#[trigger] all[i]).len()
            <= chunk_size by {
            if i > 0 {
                assert(all[i] == rest[i - 1]);
            }
        }
        assert forall|i: int| 0 <= i < all.len() - 1 implies (#[trigger] all[i]).len()
            == chunk_size by {
            if i > 0 {
                assert(all[i] == rest[i - 1]);
            } else {
                assert(rest.len() > 0);
            }
        }
    } else {
        assert(data.subrange(from, data.len() as int) =~= Seq::<u8>::empty());
    }
}

/// Hands out the pieces of a buffer one after the other.
pub struct FixedSizeChunker<'a> {
    data: &'a [u8],
    chunk_size: usize,
    current_pos: usize,
}

impl<'a> FixedSizeChunker<'a> {
    /// The buffer that is cut.
    pub closed spec fn data(&self) -> Seq<u8> {
        self.data@
    }

    /// The size of the pieces.
    pub closed spec fn chunk_size(&self) -> int {
        self.chunk_size as int
    }

    /// How much has been handed out.
    pub closed spec fn position(&self) -> int {
        self.current_pos as int
    }

    /// The position never leaves the buffer.
    pub open spec fn wf(&self) -> bool {
        0 <= self.position() <= self.data().len()
    }

    pub fn new(data: &'a [u8], chunk_size: usize) -> (chunker: Self)
        ensures
            chunker.wf(),
            chunker.data() == data@,
            chunker.chunk_size() == chunk_size,
            chunker.position() == 0,
    {
        FixedSizeChunker { data, chunk_size, current_pos: 0 }
    }

    /// The next piece, or `None` once the whole buffer has been handed out.
    pub fn next(&mut self) -> (chunk: Option<&'a [u8]>)
        requires
            old(self).wf(),
        ensures
            final(self).wf(),
            final(self).data() == old(self).data(),
            final(self).chunk_size() == old(self).chunk_size(),
            chunk is None <==> old(self).position() == old(self).data().len(),
            chunk is None ==> final(self).position() == old(self).position(),
            chunk matches Some(c) ==> {
                &&& final(self).position() == fixed_end(
                    old(self).data().len() as int,
                    old(self).chunk_size(),
                    old(self).position(),
                )
                &&& c@ == old(self).data().subrange(old(self).position(), final(self).position())
            },
    {
        if self.current_pos >= self.data.len() {
            return None;
        }
        let end: usize = if self.chunk_size <= self.data.len() - self.current_pos {
            self.current_pos + self.chunk_size
        } else {
            self.data.len()
        };
        let chunk = vstd::slice::slice_subrange(self.data, self.current_pos, end);
        self.current_pos = end;
        Some(chunk)
    }

    /// All pieces that are left.
    pub fn collect(self) -> (chunks: Vec<Vec<u8>>)
        requires
            self.wf(),
            self.chunk_size() > 0,
        ensures
            chunks@.map_values(|c: Vec<u8>| c@) == fixed_chunks(
                self.data(),
                self.chunk_size(),
                self.position(),
            ),
    {
        let mut chunker = self;
        let mut chunks: Vec<Vec<u8>> = Vec::new();
        let ghost all = fixed_chunks(self.data(), self.chunk_size(), self.position());
        loop
            invariant
                chunker.wf(),
                chunker.data() == self.data(),
                chunker.chunk_size() == self.chunk_size(),
                self.chunk_size() > 0,
                chunks@.map_values(|c: Vec<u8>| c@) + fixed_chunks(
                    chunker.data(),
                    chunker.chunk_size(),
                    chunker.position(),
                ) == all,
            ensures
                chunks@.map_values(|c: Vec<u8>| c@) == all,
            decreases chunker.data().len() - chunker.position(),
        {
            let ghost front = chunks@.map_values(|c: Vec<u8>| c@);
            let ghost here = chunker.position();
            match chunker.next() {
                None => {
                    assert(front + Seq::<Seq<u8>>::empty() =~= front);
                    break;
                },
                Some(piece) => {
                    let copy = vstd::slice::slice_to_vec(piece);
                    chunks.push(copy);
                    proof {
                        let rest = fixed_chunks(
                            chunker.data(),
                            chunker.chunk_size(),
                            chunker.position(),
                        );
                        assert(chunks@.map_values(|c: Vec<u8>| c@) =~= front.push(piece@));
                        assert(front + (seq![piece@] + rest) =~= front.push(piece@) + rest);
                    }
                },
            }
        }
        chunks
    }
}

} // verus!
