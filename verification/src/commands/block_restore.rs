//! The run of a block restore: nothing is written before the layout, the target and its size have
//! been checked.
use crate::catalog::index::BlockLayout;
use crate::catalog::index::ExtentLayout;
use crate::catalog::rows::facts;
use crate::catalog::rows::facts_push;
use crate::commands::restore::check_block_target;
use crate::commands::restore::check_target_size;
use crate::error::LazarusError;
use crate::snapshot::block_image::block_write_offset;
use crate::snapshot::block_image::chunk_sum;
use crate::snapshot::block_image::layout_fault;
use crate::snapshot::block_image::put;
use crate::snapshot::block_image::put_chunks;
use crate::snapshot::block_image::put_extents;
use crate::snapshot::block_image::restored;
use crate::snapshot::block_image::sound_extent;
use crate::snapshot::block_image::sound_layout;
use crate::snapshot::block_image::validate_block_layout;
use crate::snapshot::block_image::ChunkPlace;
use crate::text::copy_text;
use crate::text::decimal;
use vstd::prelude::*;

verus! {

// --- The writes of a layout ----------------------------------------------------------------

/// A chunk to write: where its extent starts, its hash, its offset in the extent and its length.
#[derive(Debug)]
pub struct BlockWrite {
    pub extent_offset: u64,
    pub hash: String,
    pub rel_offset: u64,
    pub length: u64,
}

impl View for BlockWrite {
    type V = (u64, Seq<char>, u64, u64);

    open spec fn view(&self) -> (u64, Seq<char>, u64, u64) {
        (self.extent_offset, self.hash@, self.rel_offset, self.length)
    }
}

/// A chunk to write, as above.
pub type WritePlace = (u64, Seq<char>, u64, u64);

/// The writes of the first `n` chunks of an extent.
pub open spec fn chunk_writes(e: ExtentLayout, n: int) -> Seq<WritePlace> {
    Seq::new(n as nat, |k: int| (e.offset, e.chunks[k].1, e.chunks[k].2, e.chunks[k].3))
}

/// The writes of the first `n` extents, one chunk after the other.
pub open spec fn writes_of(extents: Seq<ExtentLayout>, n: int) -> Seq<WritePlace>
    decreases n,
{
    if n <= 0 {
        Seq::empty()
    } else {
        writes_of(extents, n - 1) + chunk_writes(
            extents[n - 1],
            extents[n - 1].chunks.len() as int,
        )
    }
}

/// All writes of a layout.
pub open spec fn all_writes(extents: Seq<ExtentLayout>) -> Seq<WritePlace> {
    writes_of(extents, extents.len() as int)
}

/// An image after the first `n` writes.
pub open spec fn image_after(
    image: Seq<u8>,
    writes: Seq<WritePlace>,
    n: int,
    content: spec_fn(Seq<char>) -> Seq<u8>,
) -> Seq<u8>
    decreases n,
{
    if n <= 0 {
        image
    } else {
        put(
            image_after(image, writes, n - 1, content),
            writes[n - 1].0 + writes[n - 1].2,
            content(writes[n - 1].1),
        )
    }
}

proof fn image_of_front(
    image: Seq<u8>,
    front: Seq<WritePlace>,
    rest: Seq<WritePlace>,
    n: int,
    content: spec_fn(Seq<char>) -> Seq<u8>,
)
    requires
        n <= front.len(),
    ensures
        image_after(image, front + rest, n, content) == image_after(image, front, n, content),
    decreases n,
{
    if n > 0 {
        image_of_front(image, front, rest, n - 1, content);
    }
}

proof fn image_of_extent(
    image: Seq<u8>,
    front: Seq<WritePlace>,
    e: ExtentLayout,
    k: int,
    content: spec_fn(Seq<char>) -> Seq<u8>,
)
    requires
        0 <= k <= e.chunks.len(),
    ensures
        image_after(
            image,
            front + chunk_writes(e, e.chunks.len() as int),
            front.len() + k,
            content,
        ) == put_chunks(
            image_after(image, front, front.len() as int, content),
            e.offset as int,
            e.chunks,
            k,
            content,
        ),
    decreases k,
{
    let all = front + chunk_writes(e, e.chunks.len() as int);
    if k > 0 {
        image_of_extent(image, front, e, k - 1, content);
        assert(all[front.len() + k - 1] == (
            e.offset,
            e.chunks[k - 1].1,
            e.chunks[k - 1].2,
            e.chunks[k - 1].3,
        ));
    } else {
        image_of_front(
            image,
            front,
            chunk_writes(e, e.chunks.len() as int),
            front.len() as int,
            content,
        );
    }
}

proof fn image_of_extents(
    image: Seq<u8>,
    extents: Seq<ExtentLayout>,
    n: int,
    content: spec_fn(Seq<char>) -> Seq<u8>,
)
    requires
        0 <= n <= extents.len(),
    ensures
        image_after(image, writes_of(extents, n), writes_of(extents, n).len() as int, content)
            == put_extents(image, extents, n, content),
    decreases n,
{
    if n > 0 {
        image_of_extents(image, extents, n - 1, content);
        image_of_extent(
            image,
            writes_of(extents, n - 1),
            extents[n - 1],
            extents[n - 1].chunks.len() as int,
            content,
        );
    }
}

/// All writes of a layout, one after the other, restore the image.
pub proof fn the_writes_restore_the_image(
    image: Seq<u8>,
    extents: Seq<ExtentLayout>,
    content: spec_fn(Seq<char>) -> Seq<u8>,
)
    ensures
        image_after(image, all_writes(extents), all_writes(extents).len() as int, content)
            == restored(image, extents, content),
{
    image_of_extents(image, extents, extents.len() as int, content);
}

proof fn chunk_sum_grows(chunks: Seq<ChunkPlace>, k: int)
    requires
        0 <= k <= chunks.len(),
    ensures
        0 <= chunk_sum(chunks.take(k)) <= chunk_sum(chunks),
    decreases chunks.len(),
{
    if k < chunks.len() {
        chunk_sum_grows(chunks.drop_last(), k);
        assert(chunks.drop_last().take(k) =~= chunks.take(k));
    } else {
        assert(chunks.take(k) =~= chunks);
        if chunks.len() > 0 {
            let front = chunks.drop_last();
            chunk_sum_grows(front, front.len() as int);
            assert(front.take(front.len() as int) =~= front);
        }
    }
}

proof fn chunks_stay_inside(e: ExtentLayout, k: int)
    requires
        sound_extent(e),
        0 <= k < e.chunks.len(),
    ensures
        e.chunks[k].2 + e.chunks[k].3 <= e.length,
{
    chunk_sum_grows(e.chunks, k + 1);
    assert(e.chunks.take(k + 1).drop_last() =~= e.chunks.take(k));
}

/// No write of a sound layout goes beyond the size of the device.
pub proof fn writes_stay_inside(extents: Seq<ExtentLayout>, n: int, size: int, i: int)
    requires
        sound_layout(extents, size),
        0 <= n <= extents.len(),
        0 <= i < writes_of(extents, n).len(),
    ensures
        writes_of(extents, n)[i].0 + writes_of(extents, n)[i].2 + writes_of(extents, n)[i].3
            <= size,
    decreases n,
{
    let front = writes_of(extents, n - 1);
    if i < front.len() {
        writes_stay_inside(extents, n - 1, size, i);
    } else {
        let e = extents[n - 1];
        let k = i - front.len();
        assert(sound_extent(e));
        chunks_stay_inside(e, k);
        assert(writes_of(extents, n)[i] == chunk_writes(e, e.chunks.len() as int)[k]);
    }
}

fn list_writes(layout: &BlockLayout) -> (out: Vec<BlockWrite>)
    ensures
        facts(out@) == all_writes(facts(layout.extents@)),
{
    let ghost extents = facts(layout.extents@);
    let mut out: Vec<BlockWrite> = Vec::new();
    let mut i: usize = 0;
    assert(facts(out@) =~= writes_of(extents, 0));
    while i < layout.extents.len()
        invariant
            i <= layout.extents@.len(),
            extents == facts(layout.extents@),
            facts(out@) == writes_of(extents, i as int),
        decreases layout.extents@.len() - i,
    {
        let extent = &layout.extents[i];
        let mut k: usize = 0;
        assert(facts(out@) =~= writes_of(extents, i as int) + chunk_writes(extent@, 0));
        while k < extent.chunks.len()
            invariant
                i < layout.extents@.len(),
                extents == facts(layout.extents@),
                extent == layout.extents@[i as int],
                k <= extent.chunks@.len(),
                facts(out@) == writes_of(extents, i as int) + chunk_writes(extent@, k as int),
            decreases extent.chunks@.len() - k,
        {
            let chunk = &extent.chunks[k];
            let write = BlockWrite {
                extent_offset: extent.offset,
                hash: copy_text(chunk.hash.as_str()),
                rel_offset: chunk.rel_offset,
                length: chunk.length,
            };
            proof {
                facts_push(out@, write);
                assert(extent@.chunks[k as int] == chunk@);
                assert(chunk_writes(extent@, k as int + 1) =~= chunk_writes(
                    extent@,
                    k as int,
                ).push(write@));
                assert(writes_of(extents, i as int) + chunk_writes(extent@, k as int + 1) =~= (
                writes_of(extents, i as int) + chunk_writes(extent@, k as int)).push(write@));
            }
            out.push(write);
            k += 1;
        }
        assert(extents[i as int] == extent@);
        i += 1;
    }
    out
}

// --- The run -------------------------------------------------------------------------------

/// What a block restore does next.
#[derive(Debug)]
pub enum BlockStep<'a> {
    /// Open the device, and say how large it is.
    OpenDevice,
    /// Create the file with this size.
    CreateFile { size: u64 },
    /// Read the chunk with this hash, and write it where the run says.
    Write { hash: &'a str },
    Finished,
}

/// A block restore as far as it has come.
#[verifier::ext_equal]
pub struct RestoreState {
    pub target: Seq<char>,
    pub is_device: bool,
    /// The size of the device that was backed up.
    pub size: u64,
    pub layout: Seq<ExtentLayout>,
    /// How large the target is, once it is open.
    pub capacity: Option<u64>,
    /// How many chunks have been written.
    pub done: nat,
}

impl RestoreState {
    /// The layout is sound; the target is open before anything is written; and an open target has
    /// room for the whole device.
    pub open spec fn wf(self) -> bool {
        &&& sound_layout(self.layout, self.size as int)
        &&& self.done <= all_writes(self.layout).len()
        &&& self.done > 0 ==> self.capacity is Some
        &&& self.capacity matches Some(room) ==> self.size <= room
    }

    /// The chunk that is written next.
    pub open spec fn next_write(self) -> WritePlace {
        all_writes(self.layout)[self.done as int]
    }

    /// Whether a chunk may be written now.
    pub open spec fn may_write(self) -> bool {
        self.capacity is Some && self.done < all_writes(self.layout).len()
    }
}

/// A block restore, driven by what the target answers.
pub struct BlockRestore {
    target: String,
    is_device: bool,
    size: u64,
    layout: Ghost<Seq<ExtentLayout>>,
    writes: Vec<BlockWrite>,
    capacity: Option<u64>,
    done: usize,
}

impl View for BlockRestore {
    type V = RestoreState;

    closed spec fn view(&self) -> RestoreState {
        RestoreState {
            target: self.target@,
            is_device: self.is_device,
            size: self.size,
            layout: self.layout@,
            capacity: self.capacity,
            done: self.done as nat,
        }
    }
}

impl BlockRestore {
    /// The writes that the run has listed.
    pub closed spec fn queue(&self) -> Seq<WritePlace> {
        facts(self.writes@)
    }

    pub open spec fn wf(&self) -> bool {
        &&& self@.wf()
        &&& self.queue() == all_writes(self@.layout)
    }

    /// A run that starts: the layout has to be sound, a device has to exist, and a file must not,
    /// unless it may be replaced.
    pub fn start(
        layout: &BlockLayout,
        size: u64,
        target: &str,
        is_device: bool,
        present: bool,
        allow_overwrite: bool,
    ) -> (out: Result<Self, LazarusError>)
        ensures
            out is Ok <==> sound_layout(facts(layout.extents@), size as int) && if is_device {
                present
            } else {
                !present || allow_overwrite
            },
            match out {
                Ok(run) => {
                    &&& run.wf()
                    &&& run@ == (RestoreState {
                        target: target@,
                        is_device,
                        size,
                        layout: facts(layout.extents@),
                        capacity: None,
                        done: 0,
                    })
                },
                Err(e) => if !sound_layout(facts(layout.extents@), size as int) {
                    &&& e is VerificationFailed
                    &&& layout_fault(facts(layout.extents@), 0, 0, size as int) == Some(e.detail())
                } else {
                    &&& e is Storage
                    &&& e.detail() == if is_device {
                        "target device "@ + target@ + " does not exist"@
                    } else {
                        "destination "@ + target@
                            + " already exists; pass --allow-overwrite to replace it"@
                    }
                },
            },
    {
        match validate_block_layout(layout, size) {
            Ok(_) => {},
            Err(e) => {
                return Err(e);
            },
        }
        match check_block_target(target, is_device, present, allow_overwrite) {
            Ok(_) => {},
            Err(e) => {
                return Err(e);
            },
        }
        Ok(
            BlockRestore {
                target: copy_text(target),
                is_device,
                size,
                layout: Ghost(facts(layout.extents@)),
                writes: list_writes(layout),
                capacity: None,
                done: 0,
            },
        )
    }

    /// What is to be done next. A write is asked for only once the target is open and large
    /// enough.
    pub fn request(&self) -> (step: BlockStep<'_>)
        requires
            self.wf(),
        ensures
            match step {
                BlockStep::OpenDevice => self@.capacity is None && self@.is_device,
                BlockStep::CreateFile { size } => {
                    &&& self@.capacity is None
                    &&& !self@.is_device
                    &&& size == self@.size
                },
                BlockStep::Write { hash } => {
                    &&& self@.may_write()
                    &&& self@.capacity->0 >= self@.size
                    &&& hash@ == self@.next_write().1
                },
                BlockStep::Finished => {
                    &&& self@.capacity is Some
                    &&& self@.done == all_writes(self@.layout).len()
                },
            },
    {
        if self.capacity.is_none() {
            if self.is_device {
                BlockStep::OpenDevice
            } else {
                BlockStep::CreateFile { size: self.size }
            }
        } else if self.done < self.writes.len() {
            let write = &self.writes[self.done];
            assert(self.queue()[self.done as int] == write@);
            BlockStep::Write { hash: write.hash.as_str() }
        } else {
            BlockStep::Finished
        }
    }

    /// The device is open. One that is smaller than what was backed up is refused; nothing has
    /// been written to it then, and nothing will be.
    pub fn opened(&mut self, target_size: u64) -> (out: Result<(), LazarusError>)
        requires
            old(self).wf(),
            old(self)@.is_device,
            old(self)@.capacity is None,
        ensures
            final(self).wf(),
            out is Ok <==> target_size >= old(self)@.size,
            match out {
                Ok(_) => final(self)@ == (RestoreState {
                    capacity: Some(target_size),
                    ..old(self)@
                }),
                Err(e) => {
                    &&& final(self)@ == old(self)@
                    &&& final(self)@.done == 0
                    &&& e is Storage
                    &&& e.detail() == "target device "@ + old(self)@.target + " is "@ + decimal(
                        target_size as nat,
                    ) + " byte(s), smaller than backup size "@ + decimal(old(self)@.size as nat)
                },
            },
    {
        match check_target_size(self.target.as_str(), target_size, self.size) {
            Ok(_) => {
                self.capacity = Some(target_size);
                Ok(())
            },
            Err(e) => Err(e),
        }
    }

    /// The file is there, and has the size that was asked for.
    pub fn created(&mut self)
        requires
            old(self).wf(),
            !old(self)@.is_device,
            old(self)@.capacity is None,
        ensures
            final(self).wf(),
            final(self)@ == (RestoreState { capacity: Some(old(self)@.size), ..old(self)@ }),
    {
        self.capacity = Some(self.size);
    }

    /// Where the chunk goes that was read. A chunk of another length than the layout says is
    /// refused.
    pub fn place(&mut self, chunk_len: usize) -> (out: Result<u64, LazarusError>)
        requires
            old(self).wf(),
            old(self)@.may_write(),
        ensures
            final(self).wf(),
            out is Ok <==> chunk_len == old(self)@.next_write().3,
            match out {
                Ok(at) => {
                    &&& at == old(self)@.next_write().0 + old(self)@.next_write().2
                    &&& at + chunk_len <= old(self)@.size <= old(self)@.capacity->0
                    &&& final(self)@ == (RestoreState {
                        done: old(self)@.done + 1,
                        ..old(self)@
                    })
                },
                Err(e) => {
                    &&& final(self)@ == old(self)@
                    &&& e is VerificationFailed
                    &&& e.detail() == "chunk "@ + old(self)@.next_write().1
                        + " length mismatch: manifest "@ + decimal(
                        old(self)@.next_write().3 as nat,
                    ) + ", decoded "@ + decimal(chunk_len as nat)
                },
            },
    {
        let write = &self.writes[self.done];
        proof {
            assert(self.queue()[self.done as int] == write@);
            assert(self.done < self.writes.len());
            writes_stay_inside(
                self.layout@,
                self.layout@.len() as int,
                self.size as int,
                self.done as int,
            );
        }
        match block_write_offset(
            write.extent_offset,
            write.hash.as_str(),
            write.rel_offset,
            write.length,
            chunk_len,
        ) {
            Ok(at) => {
                self.done = self.done + 1;
                Ok(at)
            },
            Err(e) => Err(e),
        }
    }
}

/// Nothing is written before the target is open and has room for the whole device; and what is
/// written next lies on it.
pub proof fn writes_need_an_open_target(run: RestoreState)
    requires
        run.wf(),
        run.may_write(),
    ensures
        run.capacity is Some,
        run.capacity->0 >= run.size,
        run.next_write() == all_writes(run.layout)[run.done as int],
        run.next_write().0 + run.next_write().2 + run.next_write().3 <= run.size,
{
    writes_stay_inside(
        run.layout,
        run.layout.len() as int,
        run.size as int,
        run.done as int,
    );
}

} // verus!
