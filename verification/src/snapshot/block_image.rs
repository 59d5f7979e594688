//! Block devices as extents and chunks: cutting a device up, checking a layout, and what writing
//! the chunks back gives.
use crate::bytes::hex_text;
use crate::catalog::index::BlockExtent;
use crate::catalog::index::BlockExtentChunk;
use crate::catalog::index::BlockLayout;
use crate::catalog::index::ExtentLayout;
use crate::catalog::rows::facts;
use crate::chunking::block_device::covered;
use crate::chunking::block_device::tidy;
use crate::chunking::block_device::Extent;
use crate::error::LazarusError;
use crate::primitives::blake3_hash;
use crate::text::concat2;
use crate::text::concat3;
use crate::text::copy_text;
use crate::text::decimal;
use crate::text::decimal_string;
use vstd::prelude::*;

verus! {

/// The size of the chunks that extents are cut into.
pub const CHUNK_SIZE: usize = 1048576;

// --- Sound layouts -------------------------------------------------------------------------

/// A chunk of an extent: index, hash, offset in the extent, length.
pub type ChunkPlace = (u64, Seq<char>, u64, u64);

/// The lengths of the chunks, added up.
pub open spec fn chunk_sum(chunks: Seq<ChunkPlace>) -> int
    decreases chunks.len(),
{
    if chunks.len() == 0 {
        0
    } else {
        chunk_sum(chunks.drop_last()) + chunks.last().3
    }
}

/// Whether each chunk starts where those before it end.
pub open spec fn contiguous(chunks: Seq<ChunkPlace>) -> bool {
    forall|k: int| 0 <= k < chunks.len() ==> (#[trigger] chunks[k]).2 == chunk_sum(chunks.take(k))
}

/// Where an extent ends.
pub open spec fn extent_end(e: ExtentLayout) -> int {
    e.offset + e.length
}

/// Whether the chunks of an extent fill it without gap or overlap.
pub open spec fn sound_extent(e: ExtentLayout) -> bool {
    contiguous(e.chunks) && chunk_sum(e.chunks) == e.length
}

/// Whether the extents are in order, do not overlap, stay on the device, and are filled by their
/// chunks.
pub open spec fn sound_layout(extents: Seq<ExtentLayout>, device_size: int) -> bool {
    &&& forall|i: int|
        0 <= i < extents.len() ==> extent_end(#[trigger] extents[i]) <= device_size
            && sound_extent(extents[i])
    &&& forall|i: int, j: int|
        0 <= i < j < extents.len() ==> extent_end(#[trigger] extents[i]) <= (
        #[trigger] extents[j]).offset
}

/// What is wrong with the chunks of an extent from `i` on, where they should go on at `rel`.
pub open spec fn chunks_fault(chunks: Seq<ChunkPlace>, i: int, rel: int) -> Option<Seq<char>>
    decreases chunks.len() - i,
{
    if i < 0 || i >= chunks.len() {
        None
    } else if chunks[i].2 != rel {
        Some("block chunks are not ordered contiguously within an extent"@)
    } else if rel + chunks[i].3 > u64::MAX {
        Some("block chunk overflow"@)
    } else {
        chunks_fault(chunks, i + 1, rel + chunks[i].3)
    }
}

/// What is wrong with one extent, where the one before it ends at `last`.
pub open spec fn extent_fault(e: ExtentLayout, last: int, device_size: int) -> Option<Seq<char>> {
    if e.offset < last {
        Some("block extents are not ordered or overlap"@)
    } else if extent_end(e) > u64::MAX {
        Some("block extent overflow"@)
    } else if extent_end(e) > device_size {
        Some("block extent extends past device size"@)
    } else if chunks_fault(e.chunks, 0, 0) is Some {
        chunks_fault(e.chunks, 0, 0)
    } else if chunk_sum(e.chunks) != e.length {
        Some(
            "extent "@ + decimal(e.extent_idx as nat) + " length mismatch: extent "@ + decimal(
                e.length as nat,
            ) + ", chunks "@ + decimal(chunk_sum(e.chunks) as nat),
        )
    } else {
        None
    }
}

/// The first thing that is wrong with the extents from `i` on.
pub open spec fn layout_fault(
    extents: Seq<ExtentLayout>,
    i: int,
    last: int,
    device_size: int,
) -> Option<Seq<char>>
    decreases extents.len() - i,
{
    if i < 0 || i >= extents.len() {
        None
    } else if extent_fault(extents[i], last, device_size) is Some {
        extent_fault(extents[i], last, device_size)
    } else {
        layout_fault(extents, i + 1, extent_end(extents[i]), device_size)
    }
}

proof fn chunk_sum_step(chunks: Seq<ChunkPlace>, k: int)
    requires
        0 <= k < chunks.len(),
    ensures
        chunk_sum(chunks.take(k + 1)) == chunk_sum(chunks.take(k)) + chunks[k].3,
{
    assert(chunks.take(k + 1).drop_last() =~= chunks.take(k));
}

proof fn chunk_sum_grows(chunks: Seq<ChunkPlace>, i: int)
    requires
        0 <= i <= chunks.len(),
    ensures
        0 <= chunk_sum(chunks.take(i)) <= chunk_sum(chunks),
    decreases chunks.len() - i,
{
    chunk_sum_nat(chunks.take(i));
    if i < chunks.len() {
        chunk_sum_step(chunks, i);
        chunk_sum_grows(chunks, i + 1);
    } else {
        assert(chunks.take(i) =~= chunks);
    }
}

proof fn chunk_sum_nat(chunks: Seq<ChunkPlace>)
    ensures
        0 <= chunk_sum(chunks),
    decreases chunks.len(),
{
    if chunks.len() > 0 {
        chunk_sum_nat(chunks.drop_last());
    }
}

proof fn chunks_fault_meaning(chunks: Seq<ChunkPlace>, i: int)
    requires
        0 <= i <= chunks.len(),
        chunk_sum(chunks.take(i)) <= u64::MAX,
    ensures
        chunks_fault(chunks, i, chunk_sum(chunks.take(i))) is None <==> chunk_sum(chunks)
            <= u64::MAX && forall|k: int|
            i <= k < chunks.len() ==> (#[trigger] chunks[k]).2 == chunk_sum(chunks.take(k)),
    decreases chunks.len() - i,
{
    if i < chunks.len() {
        chunk_sum_step(chunks, i);
        chunk_sum_grows(chunks, i + 1);
        if chunk_sum(chunks.take(i + 1)) <= u64::MAX {
            chunks_fault_meaning(chunks, i + 1);
        }
    } else {
        assert(chunks.take(i) =~= chunks);
    }
}

proof fn layout_fault_meaning(extents: Seq<ExtentLayout>, i: int, last: int, device_size: int)
    requires
        0 <= i <= extents.len(),
        device_size <= u64::MAX,
    ensures
        layout_fault(extents, i, last, device_size) is None <==> {
            &&& forall|j: int|
                i <= j < extents.len() ==> last <= (#[trigger] extents[j]).offset && extent_end(
                    extents[j],
                ) <= device_size && sound_extent(extents[j])
            &&& forall|j: int, k: int|
                i <= j < k < extents.len() ==> extent_end(#[trigger] extents[j]) <= (
                #[trigger] extents[k]).offset
        },
    decreases extents.len() - i,
{
    if i < extents.len() {
        let e = extents[i];
        assert(e.chunks.take(0) =~= Seq::<ChunkPlace>::empty());
        chunks_fault_meaning(e.chunks, 0);
        assert(extent_fault(e, last, device_size) is None <==> last <= e.offset && extent_end(e)
            <= device_size && sound_extent(e));
        layout_fault_meaning(extents, i + 1, extent_end(e), device_size);
        if layout_fault(extents, i, last, device_size) is None {
            assert forall|j: int| i <= j < extents.len() implies last <= (
            #[trigger] extents[j]).offset && extent_end(extents[j]) <= device_size && sound_extent(
                extents[j],
            ) by {
                if j > i {
                    assert(extent_end(e) <= extents[j].offset);
                }
            }
        }
    }
}

/// A layout has no fault where and only where it is sound.
pub proof fn faultless_is_sound(extents: Seq<ExtentLayout>, device_size: int)
    requires
        device_size <= u64::MAX,
    ensures
        layout_fault(extents, 0, 0, device_size) is None <==> sound_layout(extents, device_size),
{
    layout_fault_meaning(extents, 0, 0, device_size);
}

/// The lengths of the extents, added up.
pub open spec fn extent_sum(extents: Seq<ExtentLayout>) -> int
    decreases extents.len(),
{
    if extents.len() == 0 {
        0
    } else {
        extent_sum(extents.drop_last()) + extents.last().length
    }
}

/// The extents of a sound layout hold no more bytes than the device.
pub proof fn sound_layouts_fit(extents: Seq<ExtentLayout>, device_size: int)
    requires
        sound_layout(extents, device_size),
        0 <= device_size,
    ensures
        extent_sum(extents) <= device_size,
        extents.len() > 0 ==> extent_sum(extents) <= extent_end(extents.last()),
    decreases extents.len(),
{
    if extents.len() > 0 {
        let front = extents.drop_last();
        assert(sound_layout(front, device_size)) by {
            assert forall|i: int| 0 <= i < front.len() implies extent_end(#[trigger] front[i])
                <= device_size && sound_extent(front[i]) by {
                assert(front[i] == extents[i]);
            }
            assert forall|i: int, j: int| 0 <= i < j < front.len() implies extent_end(
                #[trigger] front[i],
            ) <= (#[trigger] front[j]).offset by {
                assert(front[i] == extents[i] && front[j] == extents[j]);
            }
        }
        sound_layouts_fit(front, device_size);
        if front.len() > 0 {
            assert(front.last() == extents[extents.len() - 2]);
            assert(extent_end(extents[extents.len() - 2]) <= extents[extents.len() - 1].offset);
        }
    }
}

fn check_chunks(chunks: &Vec<BlockExtentChunk>) -> (out: Result<u64, LazarusError>)
    ensures
        match out {
            Ok(total) => {
                &&& chunks_fault(facts(chunks@), 0, 0) is None
                &&& total == chunk_sum(facts(chunks@))
            },
            Err(e) => e is VerificationFailed && chunks_fault(facts(chunks@), 0, 0) == Some(
                e.detail(),
            ),
        },
{
    let mut expected: u64 = 0;
    let mut i: usize = 0;
    let ghost all = facts(chunks@);
    assert(all.take(0) =~= Seq::<ChunkPlace>::empty());
    while i < chunks.len()
        invariant
            i <= chunks@.len(),
            all == facts(chunks@),
            expected == chunk_sum(all.take(i as int)),
            chunks_fault(all, 0, 0) == chunks_fault(all, i as int, expected as int),
        decreases chunks@.len() - i,
    {
        let c = &chunks[i];
        assert(all[i as int] == c@);
        if c.rel_offset != expected {
            return Err(
                LazarusError::VerificationFailed(
                    copy_text("block chunks are not ordered contiguously within an extent"),
                ),
            );
        }
        proof {
            chunk_sum_step(all, i as int);
        }
        expected = match expected.checked_add(c.length) {
            Some(n) => n,
            None => {
                return Err(LazarusError::VerificationFailed(copy_text("block chunk overflow")));
            },
        };
        i += 1;
    }
    assert(all.take(i as int) =~= all);
    Ok(expected)
}

fn check_extent(e: &BlockExtent, last: u64, device_size: u64) -> (out: Result<u64, LazarusError>)
    ensures
        match out {
            Ok(end) => extent_fault(e@, last as int, device_size as int) is None && end
                == extent_end(e@),
            Err(err) => err is VerificationFailed && extent_fault(
                e@,
                last as int,
                device_size as int,
            ) == Some(err.detail()),
        },
{
    if e.offset < last {
        return Err(
            LazarusError::VerificationFailed(copy_text("block extents are not ordered or overlap")),
        );
    }
    let end: u64 = match e.offset.checked_add(e.length) {
        Some(n) => n,
        None => {
            return Err(LazarusError::VerificationFailed(copy_text("block extent overflow")));
        },
    };
    if end > device_size {
        return Err(
            LazarusError::VerificationFailed(copy_text("block extent extends past device size")),
        );
    }
    let total = match check_chunks(&e.chunks) {
        Ok(n) => n,
        Err(err) => {
            return Err(err);
        },
    };
    if total != e.length {
        let a = concat3(
            "extent ",
            decimal_string(e.extent_idx).as_str(),
            " length mismatch: extent ",
        );
        let b = concat3(a.as_str(), decimal_string(e.length).as_str(), ", chunks ");
        return Err(
            LazarusError::VerificationFailed(concat2(b.as_str(), decimal_string(total).as_str())),
        );
    }
    Ok(end)
}

/// Checks a layout before it is written to a device: it is accepted where and only where it is
/// sound, and otherwise the error names the first fault.
pub fn validate_block_layout(layout: &BlockLayout, device_size: u64) -> (out: Result<
    (),
    LazarusError,
>)
    ensures
        out is Ok <==> sound_layout(facts(layout.extents@), device_size as int),
        out matches Err(e) ==> e is VerificationFailed && layout_fault(
            facts(layout.extents@),
            0,
            0,
            device_size as int,
        ) == Some(e.detail()),
{
    let ghost all = facts(layout.extents@);
    proof {
        faultless_is_sound(all, device_size as int);
    }
    let mut last: u64 = 0;
    let mut i: usize = 0;
    while i < layout.extents.len()
        invariant
            i <= layout.extents@.len(),
            all == facts(layout.extents@),
            layout_fault(all, 0, 0, device_size as int) == layout_fault(
                all,
                i as int,
                last as int,
                device_size as int,
            ),
            layout_fault(all, 0, 0, device_size as int) is None <==> sound_layout(
                all,
                device_size as int,
            ),
        decreases layout.extents@.len() - i,
    {
        assert(all[i as int] == layout.extents@[i as int]@);
        match check_extent(&layout.extents[i], last, device_size) {
            Ok(end) => {
                last = end;
            },
            Err(e) => {
                return Err(e);
            },
        }
        i += 1;
    }
    Ok(())
}

/// Where a chunk goes on the device, once its decoded length has been checked.
pub fn block_write_offset(
    extent_offset: u64,
    hash: &str,
    rel_offset: u64,
    length: u64,
    decoded_len: usize,
) -> (out: Result<u64, LazarusError>)
    ensures
        out is Ok <==> decoded_len == length && extent_offset + rel_offset <= u64::MAX,
        match out {
            Ok(at) => at == extent_offset + rel_offset,
            Err(e) => if decoded_len != length {
                e is VerificationFailed && e.detail() == "chunk "@ + hash@
                    + " length mismatch: manifest "@ + decimal(length as nat) + ", decoded "@
                    + decimal(decoded_len as nat)
            } else {
                e is Storage && e.detail() == "block write offset overflow"@
            },
        },
{
    if decoded_len as u64 != length {
        let a = concat3("chunk ", hash, " length mismatch: manifest ");
        let b = concat3(a.as_str(), decimal_string(length).as_str(), ", decoded ");
        return Err(
            LazarusError::VerificationFailed(
                concat2(b.as_str(), decimal_string(decoded_len as u64).as_str()),
            ),
        );
    }
    match extent_offset.checked_add(rel_offset) {
        Some(at) => Ok(at),
        None => Err(LazarusError::Storage(copy_text("block write offset overflow"))),
    }
}

/// Where a restored chunk is read back from the device, to compare it.
pub fn block_verify_offset(extent_offset: u64, rel_offset: u64) -> (out: Result<u64, LazarusError>)
    ensures
        out is Ok <==> extent_offset + rel_offset <= u64::MAX,
        match out {
            Ok(at) => at == extent_offset + rel_offset,
            Err(e) => e is Storage && e.detail() == "block verify offset overflow"@,
        },
{
    match extent_offset.checked_add(rel_offset) {
        Some(at) => Ok(at),
        None => Err(LazarusError::Storage(copy_text("block verify offset overflow"))),
    }
}

// --- Writing chunks back -------------------------------------------------------------------

/// An image after data was written at a position.
pub open spec fn put(image: Seq<u8>, at: int, data: Seq<u8>) -> Seq<u8> {
    Seq::new(
        image.len(),
        |x: int|
            if at <= x < at + data.len() {
                data[x - at]
            } else {
                image[x]
            },
    )
}

/// An image after the first `n` chunks of an extent were written to it.
pub open spec fn put_chunks(
    image: Seq<u8>,
    offset: int,
    chunks: Seq<ChunkPlace>,
    n: int,
    content: spec_fn(Seq<char>) -> Seq<u8>,
) -> Seq<u8>
    decreases n,
{
    if n <= 0 {
        image
    } else {
        put(
            put_chunks(image, offset, chunks, n - 1, content),
            offset + chunks[n - 1].2,
            content(chunks[n - 1].1),
        )
    }
}

/// An image after the chunks of the first `n` extents were written to it.
pub open spec fn put_extents(
    image: Seq<u8>,
    extents: Seq<ExtentLayout>,
    n: int,
    content: spec_fn(Seq<char>) -> Seq<u8>,
) -> Seq<u8>
    decreases n,
{
    if n <= 0 {
        image
    } else {
        let e = extents[n - 1];
        put_chunks(
            put_extents(image, extents, n - 1, content),
            e.offset as int,
            e.chunks,
            e.chunks.len() as int,
            content,
        )
    }
}

/// What a restore makes of an image.
pub open spec fn restored(
    image: Seq<u8>,
    extents: Seq<ExtentLayout>,
    content: spec_fn(Seq<char>) -> Seq<u8>,
) -> Seq<u8> {
    put_extents(image, extents, extents.len() as int, content)
}

/// Whether a byte lies in one of the first `n` extents.
pub open spec fn in_extents(extents: Seq<ExtentLayout>, n: int, x: int) -> bool {
    exists|i: int|
        0 <= i < n && (#[trigger] extents[i]).offset <= x && x < extent_end(extents[i])
}

/// Whether the chunks of a layout hold the bytes of the device.
pub open spec fn holds_device(
    extents: Seq<ExtentLayout>,
    device: Seq<u8>,
    content: spec_fn(Seq<char>) -> Seq<u8>,
) -> bool {
    forall|i: int, k: int|
        0 <= i < extents.len() && 0 <= k < extents[i].chunks.len() ==> content(
            (#[trigger] extents[i].chunks[k]).1,
        ) == device.subrange(
            extents[i].offset + extents[i].chunks[k].2,
            extents[i].offset + extents[i].chunks[k].2 + extents[i].chunks[k].3,
        )
}

proof fn put_chunks_bytes(
    image: Seq<u8>,
    extents: Seq<ExtentLayout>,
    i: int,
    n: int,
    device: Seq<u8>,
    content: spec_fn(Seq<char>) -> Seq<u8>,
)
    requires
        sound_layout(extents, device.len() as int),
        holds_device(extents, device, content),
        0 <= i < extents.len(),
        0 <= n <= extents[i].chunks.len(),
        device.len() <= image.len(),
    ensures
        ({
            let e = extents[i];
            let out = put_chunks(image, e.offset as int, e.chunks, n, content);
            &&& out.len() == image.len()
            &&& forall|x: int|
                0 <= x < image.len() ==> #[trigger] out[x] == if e.offset <= x < e.offset
                    + chunk_sum(e.chunks.take(n)) {
                    device[x]
                } else {
                    image[x]
                }
        }),
    decreases n,
{
    let e = extents[i];
    chunk_sum_grows(e.chunks, n);
    if n > 0 {
        put_chunks_bytes(image, extents, i, n - 1, device, content);
        chunk_sum_step(e.chunks, n - 1);
        let c = extents[i].chunks[n - 1];
        chunk_sum_grows(e.chunks, n - 1);
        assert(content(c.1) == device.subrange(e.offset + c.2, e.offset + c.2 + c.3));
        assert(c.2 == chunk_sum(e.chunks.take(n - 1)));
        assert(extent_end(e) <= device.len());
    } else {
        assert(e.chunks.take(0) =~= Seq::<ChunkPlace>::empty());
    }
}

proof fn put_extents_bytes(
    image: Seq<u8>,
    extents: Seq<ExtentLayout>,
    n: int,
    device: Seq<u8>,
    content: spec_fn(Seq<char>) -> Seq<u8>,
)
    requires
        sound_layout(extents, device.len() as int),
        holds_device(extents, device, content),
        0 <= n <= extents.len(),
        device.len() <= image.len(),
    ensures
        put_extents(image, extents, n, content).len() == image.len(),
        forall|x: int|
            0 <= x < image.len() ==> #[trigger] put_extents(image, extents, n, content)[x]
                == if in_extents(extents, n, x) {
                device[x]
            } else {
                image[x]
            },
    decreases n,
{
    if n > 0 {
        let before = put_extents(image, extents, n - 1, content);
        put_extents_bytes(image, extents, n - 1, device, content);
        let e = extents[n - 1];
        put_chunks_bytes(before, extents, n - 1, e.chunks.len() as int, device, content);
        assert(e.chunks.take(e.chunks.len() as int) =~= e.chunks);
        let out = put_extents(image, extents, n, content);
        assert forall|x: int| 0 <= x < image.len() implies #[trigger] out[x] == if in_extents(
            extents,
            n,
            x,
        ) {
            device[x]
        } else {
            image[x]
        } by {
            if in_extents(extents, n - 1, x) {
                let k = choose|k: int|
                    0 <= k < n - 1 && (#[trigger] extents[k]).offset <= x && x < extent_end(
                        extents[k],
                    );
                assert(in_extents(extents, n, x));
            } else if e.offset <= x && x < extent_end(e) {
                assert(in_extents(extents, n, x)) by {
                    assert(extents[n - 1].offset <= x);
                }
            } else if in_extents(extents, n, x) {
                let k = choose|k: int|
                    0 <= k < n && (#[trigger] extents[k]).offset <= x && x < extent_end(extents[k]);
                assert(k < n - 1);
            }
        }
    }
}

/// Restoring a sound layout writes the bytes of the device to its extents and leaves every other
/// byte of the target as it was.
pub proof fn restoring_writes_the_extents(
    image: Seq<u8>,
    extents: Seq<ExtentLayout>,
    device: Seq<u8>,
    content: spec_fn(Seq<char>) -> Seq<u8>,
)
    requires
        sound_layout(extents, device.len() as int),
        holds_device(extents, device, content),
        device.len() <= image.len(),
    ensures
        restored(image, extents, content).len() == image.len(),
        forall|x: int|
            0 <= x < image.len() ==> #[trigger] restored(image, extents, content)[x]
                == if in_extents(extents, extents.len() as int, x) {
                device[x]
            } else {
                image[x]
            },
{
    put_extents_bytes(image, extents, extents.len() as int, device, content);
}

// --- Cutting a device up -------------------------------------------------------------------

/// A piece of an extent, which becomes a chunk.
#[derive(Debug, Clone, Copy, PartialEq, Eq, Structural)]
pub struct Piece {
    pub chunk_idx: u64,
    pub rel_offset: u64,
    pub length: u64,
}

/// The pieces of an extent from `rel` on, each of `chunk_size` bytes but for the last.
pub open spec fn pieces_from(length: int, chunk_size: int, idx: int, rel: int) -> Seq<Piece>
    decreases length - rel,
{
    if rel >= length || chunk_size <= 0 {
        Seq::empty()
    } else {
        let n = if length - rel < chunk_size {
            length - rel
        } else {
            chunk_size
        };
        seq![Piece { chunk_idx: idx as u64, rel_offset: rel as u64, length: n as u64 }]
            + pieces_from(length, chunk_size, idx + 1, rel + n)
    }
}

/// Cuts an extent into pieces.
pub fn cut_extent(length: u64, chunk_size: u64) -> (out: Vec<Piece>)
    requires
        chunk_size > 0,
    ensures
        out@ == pieces_from(length as int, chunk_size as int, 0, 0),
{
    let mut out: Vec<Piece> = Vec::new();
    let mut rel: u64 = 0;
    let mut idx: u64 = 0;
    let ghost all = pieces_from(length as int, chunk_size as int, 0, 0);
    assert(out@ + all =~= all);
    while rel < length
        invariant
            chunk_size > 0,
            idx <= rel <= length,
            out@ + pieces_from(length as int, chunk_size as int, idx as int, rel as int) == all,
        decreases length - rel,
    {
        let n: u64 = if length - rel < chunk_size {
            length - rel
        } else {
            chunk_size
        };
        let ghost front = out@;
        let piece = Piece { chunk_idx: idx, rel_offset: rel, length: n };
        out.push(piece);
        proof {
            let rest = pieces_from(length as int, chunk_size as int, idx + 1, rel + n);
            assert(front + (seq![piece] + rest) =~= out@ + rest);
        }
        rel = rel + n;
        idx = idx + 1;
    }
    assert(out@ + Seq::<Piece>::empty() =~= out@);
    out
}

/// The layout of an extent of a device that is captured in pieces.
pub open spec fn captured_extent(
    device: Seq<u8>,
    e: Extent,
    idx: u64,
    chunk_size: int,
) -> ExtentLayout {
    let pieces = pieces_from(e.length as int, chunk_size, 0, 0);
    ExtentLayout {
        extent_idx: idx,
        offset: e.offset,
        length: e.length,
        chunks: Seq::new(
            pieces.len(),
            |k: int|
                (
                    pieces[k].chunk_idx,
                    hex_text(blake3_hash(piece_bytes(device, e, pieces[k]))@),
                    pieces[k].rel_offset,
                    pieces[k].length,
                ),
        ),
    }
}

/// The bytes of a piece.
pub open spec fn piece_bytes(device: Seq<u8>, e: Extent, p: Piece) -> Seq<u8> {
    device.subrange(e.offset + p.rel_offset, e.offset + p.rel_offset + p.length)
}

/// The layout of a device that is captured extent by extent.
pub open spec fn captured_layout(
    device: Seq<u8>,
    extents: Seq<Extent>,
    chunk_size: int,
) -> Seq<ExtentLayout> {
    Seq::new(extents.len(), |i: int| captured_extent(device, extents[i], i as u64, chunk_size))
}

/// The lengths of the pieces, added up.
pub open spec fn piece_sum(pieces: Seq<Piece>) -> int
    decreases pieces.len(),
{
    if pieces.len() == 0 {
        0
    } else {
        piece_sum(pieces.drop_last()) + pieces.last().length
    }
}

proof fn piece_sum_front(first: Piece, rest: Seq<Piece>)
    ensures
        piece_sum(seq![first] + rest) == first.length + piece_sum(rest),
    decreases rest.len(),
{
    let all = seq![first] + rest;
    if rest.len() == 0 {
        assert(all.drop_last() =~= Seq::<Piece>::empty());
        assert(piece_sum(all.drop_last()) == 0);
        assert(piece_sum(rest) == 0);
    } else {
        assert(all.drop_last() =~= seq![first] + rest.drop_last());
        assert(all.last() == rest.last());
        piece_sum_front(first, rest.drop_last());
    }
}

/// The pieces of an extent follow each other without gap and fill it.
pub proof fn pieces_fill(length: int, chunk_size: int, idx: int, rel: int)
    requires
        0 <= idx <= rel <= length <= u64::MAX,
        chunk_size > 0,
    ensures
        ({
            let ps = pieces_from(length, chunk_size, idx, rel);
            &&& piece_sum(ps) == length - rel
            &&& forall|k: int|
                0 <= k < ps.len() ==> {
                    &&& (#[trigger] ps[k]).chunk_idx == idx + k
                    &&& ps[k].rel_offset == rel + piece_sum(ps.take(k))
                    &&& 0 < ps[k].length <= chunk_size
                    &&& ps[k].rel_offset + ps[k].length <= length
                }
        }),
    decreases length - rel,
{
    if rel < length {
        let n = if length - rel < chunk_size {
            length - rel
        } else {
            chunk_size
        };
        let ps = pieces_from(length, chunk_size, idx, rel);
        let rest = pieces_from(length, chunk_size, idx + 1, rel + n);
        let first = Piece { chunk_idx: idx as u64, rel_offset: rel as u64, length: n as u64 };
        pieces_fill(length, chunk_size, idx + 1, rel + n);
        piece_sum_front(first, rest);
        assert forall|k: int| 0 <= k < ps.len() implies {
            &&& (#[trigger] ps[k]).chunk_idx == idx + k
            &&& ps[k].rel_offset == rel + piece_sum(ps.take(k))
            &&& 0 < ps[k].length <= chunk_size
            &&& ps[k].rel_offset + ps[k].length <= length
        } by {
            if k == 0 {
                assert(ps.take(0) =~= Seq::<Piece>::empty());
            } else {
                assert(ps[k] == rest[k - 1]);
                assert(ps.take(k) =~= seq![first] + rest.take(k - 1));
                piece_sum_front(first, rest.take(k - 1));
            }
        }
    }
}

proof fn captured_sum(device: Seq<u8>, e: Extent, idx: u64, chunk_size: int, k: int)
    requires
        0 <= k <= pieces_from(e.length as int, chunk_size, 0, 0).len(),
    ensures
        chunk_sum(captured_extent(device, e, idx, chunk_size).chunks.take(k)) == piece_sum(
            pieces_from(e.length as int, chunk_size, 0, 0).take(k),
        ),
    decreases k,
{
    let ps = pieces_from(e.length as int, chunk_size, 0, 0);
    let cs = captured_extent(device, e, idx, chunk_size).chunks;
    if k == 0 {
        assert(cs.take(0) =~= Seq::<ChunkPlace>::empty());
        assert(ps.take(0) =~= Seq::<Piece>::empty());
    } else {
        captured_sum(device, e, idx, chunk_size, k - 1);
        assert(cs.take(k).drop_last() =~= cs.take(k - 1));
        assert(ps.take(k).drop_last() =~= ps.take(k - 1));
    }
}

/// What a capture writes down is a layout that a restore accepts.
pub proof fn captures_are_sound(device: Seq<u8>, extents: Seq<Extent>, chunk_size: int)
    requires
        tidy(extents, device.len() as int),
        device.len() <= u64::MAX,
        chunk_size > 0,
    ensures
        sound_layout(captured_layout(device, extents, chunk_size), device.len() as int),
{
    let layout = captured_layout(device, extents, chunk_size);
    assert forall|i: int| 0 <= i < layout.len() implies extent_end(#[trigger] layout[i])
        <= device.len() && sound_extent(layout[i]) by {
        let e = extents[i];
        assert(e.stop() <= device.len());
        let ps = pieces_from(e.length as int, chunk_size, 0, 0);
        let cs = layout[i].chunks;
        pieces_fill(e.length as int, chunk_size, 0, 0);
        assert forall|k: int| 0 <= k < cs.len() implies (#[trigger] cs[k]).2 == chunk_sum(
            cs.take(k),
        ) by {
            captured_sum(device, e, i as u64, chunk_size, k);
            assert(ps[k].rel_offset == piece_sum(ps.take(k)));
        }
        captured_sum(device, e, i as u64, chunk_size, ps.len() as int);
        assert(cs.take(ps.len() as int) =~= cs);
        assert(ps.take(ps.len() as int) =~= ps);
    }
    assert forall|i: int, j: int| 0 <= i < j < layout.len() implies extent_end(
        #[trigger] layout[i],
    ) <= (#[trigger] layout[j]).offset by {
        assert(extents[i].stop() <= extents[j].offset);
    }
}

/// A device that holds zeros outside its extents comes back byte for byte: capturing it and
/// restoring the layout onto a sparse file of the same size gives the device. Storage is taken to
/// give back, for the hash of each captured piece, the bytes of that piece.
pub proof fn captured_devices_come_back(
    device: Seq<u8>,
    extents: Seq<Extent>,
    chunk_size: int,
    content: spec_fn(Seq<char>) -> Seq<u8>,
)
    requires
        tidy(extents, device.len() as int),
        device.len() <= u64::MAX,
        chunk_size > 0,
        forall|x: int| 0 <= x < device.len() && !covered(extents, x) ==> #[trigger] device[x] == 0,
        holds_device(captured_layout(device, extents, chunk_size), device, content),
    ensures
        restored(
            Seq::new(device.len(), |x: int| 0u8),
            captured_layout(device, extents, chunk_size),
            content,
        ) == device,
{
    let layout = captured_layout(device, extents, chunk_size);
    let blank = Seq::new(device.len(), |x: int| 0u8);
    captures_are_sound(device, extents, chunk_size);
    restoring_writes_the_extents(blank, layout, device, content);
    let out = restored(blank, layout, content);
    assert forall|x: int| 0 <= x < device.len() implies out[x] == device[x] by {
        if covered(extents, x) {
            let i = choose|i: int| 0 <= i < extents.len() && (#[trigger] extents[i]).holds(x);
            assert(layout[i].offset <= x && x < extent_end(layout[i]));
            assert(in_extents(layout, layout.len() as int, x));
        } else {
            assert(device[x] == 0);
            if in_extents(layout, layout.len() as int, x) {
                let i = choose|i: int|
                    0 <= i < layout.len() && (#[trigger] layout[i]).offset <= x && x < extent_end(
                        layout[i],
                    );
                assert(extents[i].holds(x));
            }
        }
    }
    assert(out =~= device);
}

/// In a sound layout the chunks of an extent follow each other without gap or overlap from its
/// start to its end, and the extents lie on the device one behind the other.
pub proof fn sound_layouts_have_no_gaps(extents: Seq<ExtentLayout>, size: int, i: int)
    requires
        sound_layout(extents, size),
        0 <= i < extents.len(),
    ensures
        extents[i].offset + extents[i].length <= size,
        i + 1 < extents.len() ==> extents[i].offset + extents[i].length <= extents[i + 1].offset,
        extents[i].chunks.len() == 0 ==> extents[i].length == 0,
        extents[i].chunks.len() > 0 ==> {
            let last = extents[i].chunks.last();
            &&& extents[i].chunks[0].2 == 0
            &&& last.2 + last.3 == extents[i].length
        },
        forall|k: int|
            0 <= k < extents[i].chunks.len() - 1 ==> (#[trigger] extents[i].chunks[k]).2
                + extents[i].chunks[k].3 == extents[i].chunks[k + 1].2,
{
    let chunks = extents[i].chunks;
    assert(extent_end(extents[i]) <= size && sound_extent(extents[i]));
    if i + 1 < extents.len() {
        assert(extent_end(extents[i]) <= extents[i + 1].offset);
    }
    if chunks.len() > 0 {
        let n = chunks.len() as int;
        assert(chunks.take(0) =~= Seq::<ChunkPlace>::empty());
        assert(chunks[0].2 == chunk_sum(chunks.take(0)));
        chunk_sum_step(chunks, n - 1);
        assert(chunks.take(n) =~= chunks);
        assert(chunks[n - 1].2 == chunk_sum(chunks.take(n - 1)));
    }
    assert forall|k: int| 0 <= k < chunks.len() - 1 implies (#[trigger] chunks[k]).2 + chunks[k].3
        == chunks[k + 1].2 by {
        chunk_sum_step(chunks, k);
        assert(chunks[k].2 == chunk_sum(chunks.take(k)));
        assert(chunks[k + 1].2 == chunk_sum(chunks.take(k + 1)));
    }
}

/// Devices are cut into pieces of a mebibyte.
pub proof fn pieces_have_a_mebibyte()
    ensures
        CHUNK_SIZE == 1024 * 1024,
{
}

} // verus!
