//! Content-defined chunking: the cut points follow the data, so an edit moves only the cuts near
//! it and unchanged regions keep their chunks.
use crate::chunking::fixed_size::joined;
use crate::chunking::fixed_size::joined_prepend;
use vstd::prelude::*;

verus! {

/// No chunk is shorter, unless the whole input is.
pub const MIN_CHUNK_SIZE: usize = 2048;

/// The chunk size aimed at.
pub const AVG_CHUNK_SIZE: usize = 8192;

/// No chunk is longer.
pub const MAX_CHUNK_SIZE: usize = 16384;

/// The mask for small average sizes.
pub const MASK_S: u64 = 0x0003590703530000;

/// The mask for large average sizes.
pub const MASK_L: u64 = 0x0000d90003530000;

/// How many bytes before the first candidate cut feed the rolling hash.
pub const WINDOW: usize = 64;

/// The number that each byte value adds to the rolling hash.
pub const GEAR: [u64; 252] = [
    0x5c95c078, 0x22408989, 0x2d48a214, 0x12842087, 0x530f8afb, 0x474536b9, 0x2963b4f1, 0x44cb738b,
    0x4ea7403d, 0x4d606b6e, 0x074ec5d3, 0x3af39d18, 0x726003ca, 0x37a62a74, 0x51a2f58e, 0x7506358e,
    0x5d4ab128, 0x4d4ae17b, 0x41e85924, 0x470c36f7, 0x4741cade, 0x01e0dc5c, 0x3f1d9f0a, 0x5c9e72fc,
    0x6c46b90e, 0x5afa3e0b, 0x6f1f9823, 0x2e59b392, 0x1d50712d, 0x5e9b5623, 0x1e4cc50f, 0x2887e65b,
    0x45e5d58d, 0x1c818917, 0x4ef66d54, 0x6ae3c37f, 0x1f24b7a3, 0x3a15b507, 0x5e99ebc7, 0x1f0c9d53,
    0x0df0b6a6, 0x7f0c8b2f, 0x50e83f12, 0x218c0b78, 0x5d55f4a0, 0x3c87c926, 0x5984b06e, 0x7e6b1a7e,
    0x1fab891d, 0x77af7d9f, 0x5cefe1da, 0x229ff0d8, 0x1a8e3e4d, 0x1e52ff8e, 0x3f0f822d, 0x5c656895,
    0x0b654598, 0x76cbef15, 0x6e5d0ba9, 0x00e6f096, 0x02a6b7a5, 0x2dbfea28, 0x738dd94e, 0x5349e3bc,
    0x13c8e77a, 0x42f0f8b7, 0x42af1e0c, 0x5fd9d5c6, 0x408c0e6a, 0x0be1f1a8, 0x3a1f5b56, 0x5a9d8a02,
    0x03ec0689, 0x2d8f6ad9, 0x4d0a5246, 0x66e25e18, 0x5b4e2d51, 0x7cfe4c48, 0x627e5c99, 0x2e13b9ee,
    0x7aacfd74, 0x5d05b4af, 0x01f0e7aa, 0x0b9ea743, 0x37a4c6b8, 0x51e71693, 0x40e82a1a, 0x218d16bf,
    0x71d79b8e, 0x49e9fc88, 0x71af8403, 0x7c26940c, 0x1f6a0eb3, 0x0933eb5d, 0x34aa65a2, 0x588c1fb9,
    0x7ff35a23, 0x15f48aad, 0x3dca3c61, 0x08b80f4d, 0x7a0d4887, 0x2e53e428, 0x0a156c8f, 0x3e2dd77f,
    0x7cd9b5c7, 0x1bd23bd9, 0x6829ce09, 0x19abf9e8, 0x1a0fa0df, 0x3e1e95a9, 0x47f77cc1, 0x3ef8c68f,
    0x5c8b6d04, 0x69dda3af, 0x7c26ce46, 0x77df7e5e, 0x66116e58, 0x5f80bb88, 0x091e6d44, 0x5cdad5a2,
    0x57c2d4b0, 0x27fcb732, 0x25f8cc6d, 0x3f1e0d9d, 0x0c53cb09, 0x1e877d7d, 0x49c44630, 0x74ed97a5,
    0x2e4b8a0a, 0x5eca5f18, 0x7e39d43d, 0x1a92cfd0, 0x6bb59d71, 0x6de0fb37, 0x4f85eb83, 0x68e4c3f3,
    0x4d3c6dbd, 0x2f34e32e, 0x3e8c6c23, 0x45bbdee5, 0x7b59e6ce, 0x5ec3a41e, 0x20a7f7b4, 0x0bad9395,
    0x43d4cb8a, 0x6f0f1c9a, 0x1e8f4a14, 0x14b1859f, 0x53c5cfeb, 0x0e95af51, 0x33b23d48, 0x19c9eb88,
    0x3fcdbaf3, 0x4c5c8584, 0x3b48f727, 0x5cd30f69, 0x26f9d6ca, 0x08b97a93, 0x46b8e0c2, 0x2c5a0f59,
    0x31cd37a0, 0x1e9b2669, 0x5c6c2e9e, 0x0f3a49d6, 0x77a71b1c, 0x5e0bb6fa, 0x5fc9e8c4, 0x28b2f3c9,
    0x5f21a1c3, 0x15cde79e, 0x71ef3d4b, 0x67129a6b, 0x72e58a2f, 0x4aef75c0, 0x24eacbfc, 0x08e20fc7,
    0x51c07b6d, 0x6858e1c2, 0x0aa2ddaf, 0x1b12c9c0, 0x01da6b38, 0x09d4b410, 0x4b1c46ee, 0x4f95c7c1,
    0x23784300, 0x3bee0317, 0x38e8ec22, 0x1c8cdd8e, 0x0a71a03f, 0x7e02cdc5, 0x07c9e53c, 0x12ec1e9a,
    0x31c7b0f7, 0x5a9d0e8c, 0x4e2b0bb7, 0x29ed5b31, 0x5a26cbb9, 0x1ddd67d7, 0x4e8e3f15, 0x07de7ab1,
    0x56c7dd77, 0x49e6d6f0, 0x74be6088, 0x5f9e9f11, 0x68f1e47b, 0x60cbe1b7, 0x40e08495, 0x1a3d5fcf,
    0x2e7f8f7a, 0x5f3cf80c, 0x5bd4fa0f, 0x1f3ebb7d, 0x33a5c2f8, 0x52a3e7db, 0x1bca4f31, 0x2b8c7ec2,
    0x0dab54f5, 0x1e99bb78, 0x33c93e26, 0x5e9c0d4d, 0x3e13dbe1, 0x11638903, 0x5984e79f, 0x5fc4ea18,
    0x746b4fca, 0x7ae77e7f, 0x32c5a60d, 0x0a08e8f0, 0x3cafd0c7, 0x7dc50e90, 0x1a0ec9dd, 0x599ffc82,
    0x7f38ea1a, 0x22b89cb5, 0x25b3c4f9, 0x4fd8d4d0, 0x780cfbdf, 0x09f9f4c3, 0x7cb90cd7, 0x4c85a1e0,
    0x5db3c8c1, 0x0930f038, 0x65ed17b8, 0x24e11a8f, 0x6a60ef01, 0x3f6d0e05, 0x3cd6d41f, 0x07bfd41b,
    0x41cb4bd3, 0x52fb60b8, 0x0f84c2e0, 0x0b2e0e49,
];

/// What a byte adds to the rolling hash; the table ends at 251.
pub open spec fn gear(b: u8) -> u64 {
    if b < 252 {
        GEAR@[b as int]
    } else {
        0
    }
}

/// The rolling hash after one more byte.
pub open spec fn roll(hash: u64, b: u8) -> u64 {
    (hash << 1u64).wrapping_add(gear(b))
}

/// The rolling hash of the bytes from `from` up to `to`.
pub open spec fn rolled(data: Seq<u8>, from: int, to: int) -> u64
    decreases to - from,
{
    if to <= from {
        0
    } else {
        roll(rolled(data, from, to - 1), data[to - 1])
    }
}

/// Whether the rolling hash allows a cut behind position `i`, for a window that starts at `from`.
pub open spec fn cut_behind(data: Seq<u8>, mask: u64, from: int, i: int) -> bool {
    rolled(data, from, i + 1) & mask == 0
}

/// The first cut behind a position of `i..end`, or `end` where there is none.
pub open spec fn first_cut(data: Seq<u8>, mask: u64, from: int, i: int, end: int) -> int
    decreases end - i,
{
    if i >= end {
        end
    } else if cut_behind(data, mask, from, i) {
        i + 1
    } else {
        first_cut(data, mask, from, i + 1, end)
    }
}

/// Where the hash cuts the chunk that starts at `start`.
pub open spec fn boundary(data: Seq<u8>, mask: u64, start: int) -> int {
    if start + MIN_CHUNK_SIZE >= data.len() {
        data.len() as int
    } else {
        first_cut(
            data,
            mask,
            start + MIN_CHUNK_SIZE - WINDOW,
            start + MIN_CHUNK_SIZE,
            if start + MAX_CHUNK_SIZE < data.len() {
                start + MAX_CHUNK_SIZE
            } else {
                data.len() as int
            },
        )
    }
}

/// Whether every byte that the search for that cut reads has an entry in the table.
pub open spec fn scannable(data: Seq<u8>, mask: u64, start: int) -> bool {
    start + MIN_CHUNK_SIZE < data.len() ==> forall|i: int|
        start + MIN_CHUNK_SIZE - WINDOW <= i < boundary(data, mask, start) ==> (
        #[trigger] data[i]) < 252
}

/// Where the chunk that starts at `start` ends. A rest that would be too short is taken in where
/// that fits, and is otherwise filled up from the end of this chunk.
pub open spec fn chunk_end(data: Seq<u8>, mask: u64, start: int) -> int {
    let cut = boundary(data, mask, start);
    let rest = data.len() - cut;
    if 0 < rest < MIN_CHUNK_SIZE {
        if cut - start + rest <= MAX_CHUNK_SIZE {
            data.len() as int
        } else {
            cut - (MIN_CHUNK_SIZE - rest)
        }
    } else {
        cut
    }
}

/// The chunks of `data` from `start` on.
pub open spec fn cdc_chunks(data: Seq<u8>, mask: u64, start: int) -> Seq<Seq<u8>>
    decreases data.len() - start,
{
    if start < 0 || start >= data.len() {
        Seq::empty()
    } else {
        let end = chunk_end(data, mask, start);
        if end <= start || end > data.len() {
            Seq::empty()
        } else {
            seq![data.subrange(start, end)] + cdc_chunks(data, mask, end)
        }
    }
}

/// Whether the searches for all cuts from `start` on stay within the table.
pub open spec fn all_scannable(data: Seq<u8>, mask: u64, start: int) -> bool
    decreases data.len() - start,
{
    if start < 0 || start >= data.len() {
        true
    } else {
        &&& scannable(data, mask, start)
        &&& start < chunk_end(data, mask, start) <= data.len() ==> all_scannable(
            data,
            mask,
            chunk_end(data, mask, start),
        )
    }
}

proof fn first_cut_range(data: Seq<u8>, mask: u64, from: int, i: int, end: int)
    requires
        i <= end,
    ensures
        i <= first_cut(data, mask, from, i, end) <= end,
        i < end ==> i < first_cut(data, mask, from, i, end),
    decreases end - i,
{
    if i < end && !cut_behind(data, mask, from, i) {
        first_cut_range(data, mask, from, i + 1, end);
    }
}

/// A chunk has between the least and the greatest size, or is the whole input; and what it leaves
/// is nothing or at least a chunk of the least size.
pub proof fn chunk_end_bounds(data: Seq<u8>, mask: u64, start: int)
    requires
        0 <= start < data.len(),
        start == 0 || data.len() - start >= MIN_CHUNK_SIZE,
    ensures
        start < chunk_end(data, mask, start) <= data.len(),
        chunk_end(data, mask, start) - start <= MAX_CHUNK_SIZE,
        chunk_end(data, mask, start) - start >= MIN_CHUNK_SIZE || (start == 0 && chunk_end(
            data,
            mask,
            start,
        ) == data.len()),
        chunk_end(data, mask, start) == data.len() || data.len() - chunk_end(data, mask, start)
            >= MIN_CHUNK_SIZE,
{
    if start + MIN_CHUNK_SIZE < data.len() {
        let end = if start + MAX_CHUNK_SIZE < data.len() {
            start + MAX_CHUNK_SIZE
        } else {
            data.len() as int
        };
        first_cut_range(
            data,
            mask,
            start + MIN_CHUNK_SIZE - WINDOW,
            start + MIN_CHUNK_SIZE,
            end,
        );
    }
}

/// The chunks put together again are the data, and each has between the least and the greatest
/// size unless the whole input is shorter than the least size.
pub proof fn cdc_chunks_cover(data: Seq<u8>, mask: u64, start: int)
    requires
        0 <= start <= data.len(),
        start == 0 || start == data.len() || data.len() - start >= MIN_CHUNK_SIZE,
    ensures
        joined(cdc_chunks(data, mask, start)) == data.subrange(start, data.len() as int),
        forall|i: int|
            0 <= i < cdc_chunks(data, mask, start).len() ==> (#[trigger] cdc_chunks(
                data,
                mask,
                start,
            )[i]).len() <= MAX_CHUNK_SIZE,
        forall|i: int|
            0 <= i < cdc_chunks(data, mask, start).len() ==> (#[trigger] cdc_chunks(
                data,
                mask,
                start,
            )[i]).len() >= MIN_CHUNK_SIZE || cdc_chunks(data, mask, start)[i] == data,
        cdc_chunks(data, mask, start).len() <= data.len() - start,
    decreases data.len() - start,
{
    if start < data.len() {
        let end = chunk_end(data, mask, start);
        chunk_end_bounds(data, mask, start);
        cdc_chunks_cover(data, mask, end);
        let rest = cdc_chunks(data, mask, end);
        let all = cdc_chunks(data, mask, start);
        joined_prepend(data.subrange(start, end), rest);
        assert(data.subrange(start, end) + data.subrange(end, data.len() as int) =~= data.subrange(
            start,
            data.len() as int,
        ));
        assert(start == 0 && end == data.len() ==> data.subrange(start, end) =~= data);
        assert forall|i: int| 0 <= i < all.len() implies (#[trigger] all[i]).len()
            <= MAX_CHUNK_SIZE && (all[i].len() >= MIN_CHUNK_SIZE || all[i] == data) by {
            if i > 0 {
                assert(all[i] == rest[i - 1]);
            }
        }
    } else {
        assert(data.subrange(start, data.len() as int) =~= Seq::<u8>::empty());
    }
}

/// Hands out the chunks of a buffer one after the other.
pub struct CdcChunker<'a> {
    data: &'a [u8],
    position: usize,
    mask: u64,
}

impl<'a> CdcChunker<'a> {
    /// The buffer that is cut.
    pub closed spec fn data(&self) -> Seq<u8> {
        self.data@
    }

    /// How much has been handed out.
    pub closed spec fn position(&self) -> int {
        self.position as int
    }

    /// Which bits of the rolling hash must be zero at a cut.
    pub closed spec fn mask(&self) -> u64 {
        self.mask
    }

    /// The position stays within the buffer and never leaves a rest shorter than a chunk.
    pub open spec fn wf(&self) -> bool {
        &&& 0 <= self.position() <= self.data().len()
        &&& self.position() == 0 || self.position() == self.data().len() || self.data().len()
            - self.position() >= MIN_CHUNK_SIZE
    }

    pub fn new(data: &'a [u8]) -> (chunker: Self)
        ensures
            chunker.wf(),
            chunker.data() == data@,
            chunker.position() == 0,
            chunker.mask() == 0x0000d90003530000,
    {
        Self::with_sizes(data, MIN_CHUNK_SIZE, AVG_CHUNK_SIZE, MAX_CHUNK_SIZE)
    }

    /// A chunker whose mask suits the given average size. The least and the greatest size are
    /// those of this module whatever is asked for.
    pub fn with_sizes(
        data: &'a [u8],
        _min_size: usize,
        avg_size: usize,
        _max_size: usize,
    ) -> (chunker: Self)
        ensures
            chunker.wf(),
            chunker.data() == data@,
            chunker.position() == 0,
            chunker.mask() == (if avg_size <= 4096 {
                0x0003590703530000u64
            } else {
                0x0000d90003530000u64
            }),
    {
        let mask: u64 = if avg_size <= 4096 {
            MASK_S
        } else {
            MASK_L
        };
        CdcChunker { data, position: 0, mask }
    }

    /// Where the hash cuts the chunk that starts at `start`; `None` where the search meets a byte
    /// without an entry in the table.
    fn search_boundary(&self, start: usize) -> (out: Option<usize>)
        requires
            start < self.data().len(),
        ensures
            out is Some <==> scannable(self.data(), self.mask(), start as int),
            out matches Some(cut) ==> {
                &&& cut == boundary(self.data(), self.mask(), start as int)
                &&& start < cut <= self.data().len()
            },
    {
        let len: usize = self.data.len();
        if len - start <= MIN_CHUNK_SIZE {
            return Some(len);
        }
        let search_start: usize = start + MIN_CHUNK_SIZE;
        let search_end: usize = if len - start <= MAX_CHUNK_SIZE {
            len
        } else {
            start + MAX_CHUNK_SIZE
        };
        let window_start: usize = search_start - WINDOW;
        let ghost cut = boundary(self.data(), self.mask(), start as int);
        proof {
            first_cut_range(
                self.data(),
                self.mask(),
                window_start as int,
                search_start as int,
                search_end as int,
            );
        }
        let mut hash: u64 = 0;
        let mut i: usize = window_start;
        while i < search_start
            invariant
                window_start <= i <= search_start < len,
                len == self.data@.len(),
                search_start < cut,
                cut == boundary(self.data(), self.mask(), start as int),
                window_start == start + MIN_CHUNK_SIZE - WINDOW,
                start + MIN_CHUNK_SIZE < len,
                forall|j: int| window_start <= j < i ==> (#[trigger] self.data@[j]) < 252,
                hash == rolled(self.data@, window_start as int, i as int),
            decreases search_start - i,
        {
            if self.data[i] >= 252 {
                assert(!scannable(self.data(), self.mask(), start as int));
                return None;
            }
            hash = (hash << 1u64).wrapping_add(GEAR[self.data[i] as usize]);
            i += 1;
        }
        while i < search_end
            invariant
                window_start <= search_start <= i <= search_end <= len,
                len == self.data@.len(),
                window_start == start + MIN_CHUNK_SIZE - WINDOW,
                start + MIN_CHUNK_SIZE < len,
                forall|j: int| window_start <= j < i ==> (#[trigger] self.data@[j]) < 252,
                hash == rolled(self.data@, window_start as int, i as int),
                cut == first_cut(
                    self.data@,
                    self.mask,
                    window_start as int,
                    i as int,
                    search_end as int,
                ),
                cut == boundary(self.data(), self.mask(), start as int),
                start < search_start,
            decreases search_end - i,
        {
            proof {
                first_cut_range(
                    self.data@,
                    self.mask,
                    window_start as int,
                    i as int,
                    search_end as int,
                );
            }
            if self.data[i] >= 252 {
                assert(!scannable(self.data(), self.mask(), start as int));
                return None;
            }
            hash = (hash << 1u64).wrapping_add(GEAR[self.data[i] as usize]);
            if (hash & self.mask) == 0 {
                return Some(i + 1);
            }
            i += 1;
        }
        Some(search_end)
    }

    fn find_chunk_boundary(&self, start: usize) -> (cut: usize)
        requires
            start < self.data().len(),
            scannable(self.data(), self.mask(), start as int),
        ensures
            cut == boundary(self.data(), self.mask(), start as int),
            start < cut <= self.data().len(),
    {
        self.search_boundary(start).unwrap()
    }

    /// Whether the chunks that are left can be cut: every byte that the searches read has an entry
    /// in the table.
    pub fn can_cut(&self) -> (yes: bool)
        requires
            self.wf(),
        ensures
            yes == all_scannable(self.data(), self.mask(), self.position()),
    {
        let len: usize = self.data.len();
        let mut start: usize = self.position;
        while start < len
            invariant
                len == self.data@.len(),
                start <= len,
                start == 0 || start == len || len - start >= MIN_CHUNK_SIZE,
                all_scannable(self.data(), self.mask(), self.position()) == all_scannable(
                    self.data(),
                    self.mask(),
                    start as int,
                ),
            decreases len - start,
        {
            proof {
                chunk_end_bounds(self.data@, self.mask, start as int);
            }
            match self.search_boundary(start) {
                None => {
                    return false;
                },
                Some(cut) => {
                    start = self.end_after(start, cut);
                },
            }
        }
        true
    }

    /// Where the chunk from `start` ends that the hash cuts at `cut`.
    fn end_after(&self, start: usize, cut: usize) -> (end: usize)
        requires
            start < cut <= self.data().len(),
            cut == boundary(self.data(), self.mask(), start as int),
            start == 0 || self.data().len() - start >= MIN_CHUNK_SIZE,
        ensures
            end == chunk_end(self.data(), self.mask(), start as int),
    {
        proof {
            chunk_end_bounds(self.data@, self.mask, start as int);
        }
        let chunk_len: usize = cut - start;
        let remainder: usize = self.data.len() - cut;
        if remainder > 0 && remainder < MIN_CHUNK_SIZE {
            if chunk_len <= MAX_CHUNK_SIZE && remainder <= MAX_CHUNK_SIZE - chunk_len {
                self.data.len()
            } else {
                cut - (MIN_CHUNK_SIZE - remainder)
            }
        } else {
            cut
        }
    }

    /// The next chunk, or `None` once the whole buffer has been handed out.
    pub fn next(&mut self) -> (chunk: Option<&'a [u8]>)
        requires
            old(self).wf(),
            old(self).position() < old(self).data().len() ==> scannable(
                old(self).data(),
                old(self).mask(),
                old(self).position(),
            ),
        ensures
            final(self).wf(),
            final(self).data() == old(self).data(),
            final(self).mask() == old(self).mask(),
            chunk is None <==> old(self).position() == old(self).data().len(),
            chunk is None ==> final(self).position() == old(self).position(),
            chunk matches Some(c) ==> {
                &&& final(self).position() == chunk_end(
                    old(self).data(),
                    old(self).mask(),
                    old(self).position(),
                )
                &&& old(self).position() < final(self).position()
                &&& c@ == old(self).data().subrange(old(self).position(), final(self).position())
            },
    {
        if self.position >= self.data.len() {
            return None;
        }
        let cut: usize = self.find_chunk_boundary(self.position);
        let chunk_end: usize = self.end_after(self.position, cut);
        proof {
            chunk_end_bounds(self.data@, self.mask, self.position as int);
        }
        let chunk = vstd::slice::slice_subrange(self.data, self.position, chunk_end);
        self.position = chunk_end;
        Some(chunk)
    }

    /// All chunks that are left.
    pub fn collect(self) -> (chunks: Vec<Vec<u8>>)
        requires
            self.wf(),
            all_scannable(self.data(), self.mask(), self.position()),
        ensures
            chunks@.map_values(|c: Vec<u8>| c@) == cdc_chunks(
                self.data(),
                self.mask(),
                self.position(),
            ),
    {
        let mut chunker = self;
        let mut chunks: Vec<Vec<u8>> = Vec::new();
        let ghost all = cdc_chunks(self.data(), self.mask(), self.position());
        loop
            invariant
                chunker.wf(),
                chunker.data() == self.data(),
                chunker.mask() == self.mask(),
                all_scannable(chunker.data(), chunker.mask(), chunker.position()),
                chunks@.map_values(|c: Vec<u8>| c@) + cdc_chunks(
                    chunker.data(),
                    chunker.mask(),
                    chunker.position(),
                ) == all,
            ensures
                chunks@.map_values(|c: Vec<u8>| c@) == all,
            decreases chunker.data().len() - chunker.position(),
        {
            let ghost front = chunks@.map_values(|c: Vec<u8>| c@);
            match chunker.next() {
                None => {
                    assert(front + Seq::<Seq<u8>>::empty() =~= front);
                    break;
                },
                Some(piece) => {
                    let copy = vstd::slice::slice_to_vec(piece);
                    chunks.push(copy);
                    proof {
                        let rest = cdc_chunks(chunker.data(), chunker.mask(), chunker.position());
                        assert(chunks@.map_values(|c: Vec<u8>| c@) =~= front.push(piece@));
                        assert(front + (seq![piece@] + rest) =~= front.push(piece@) + rest);
                    }
                },
            }
        }
        chunks
    }
}

} // verus!
