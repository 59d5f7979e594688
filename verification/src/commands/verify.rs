//! Checking a repository: every chunk is read and checked, and so are the layouts of block
//! devices.
use crate::bytes::copy_range;
use crate::bytes::hex_text;
use crate::bytes::to_hex;
use crate::catalog::index::BlockExtent;
use crate::catalog::index::BlockExtentChunk;
use crate::catalog::index::BlockLayout;
use crate::catalog::index::CatalogIndex;
use crate::catalog::index::ExtentLayout;
use crate::catalog::index::ObjectType;
use crate::catalog::rows::facts;
use crate::catalog::walk::reachable;
use crate::catalog::walk::reachable_from;
use crate::catalog::walk::reachable_objects;
use crate::chunking::block_device::capped;
use crate::compression::adaptive::decode_chunk;
use crate::compression::adaptive::decoded;
use crate::encryption::key_manager::KeyManager;
use crate::error::LazarusError;
use crate::primitives::aes256gcm_open;
use crate::primitives::blake3_hash;
use crate::primitives::hash_bytes;
use crate::snapshot::block_image::chunk_sum;
use crate::snapshot::block_image::extent_end;
use crate::snapshot::block_image::extent_sum;
use crate::snapshot::block_image::sound_layout;
use crate::snapshot::block_image::sound_layouts_fit;
use crate::snapshot::block_image::ChunkPlace;
use crate::storage::chunks::stored_chunk;
use crate::storage::chunks::NONCE_LEN;
use crate::text::concat2;
use crate::text::concat3;
use crate::text::decimal;
use crate::text::decimal_string;
use crate::text::push_text;
use crate::text::same_text;
use crate::text::signed_decimal;
use crate::text::signed_string;
use crate::text::texts;
use vstd::prelude::*;

verus! {

// --- Chunks --------------------------------------------------------------------------------

/// What a check of a chunk finds.
#[derive(Debug)]
pub enum ChunkCheck {
    Verified,
    /// Storage does not have it.
    Missing,
    TooSmall,
    /// It cannot be decrypted; the text of the error.
    NotDecrypted(String),
    /// It cannot be decoded; the text of the error.
    NotDecoded(String),
    /// It is other data; the hash of that data.
    WrongHash(String),
}

impl ChunkCheck {
    /// Whether this is what a check of a chunk must find.
    pub open spec fn tells(self, key: Seq<u8>, hash: Seq<char>, stored: Option<Seq<u8>>) -> bool {
        match stored {
            None => self is Missing,
            Some(data) => if data.len() < NONCE_LEN {
                self is TooSmall
            } else {
                match aes256gcm_open(key, data.take(NONCE_LEN as int), data.skip(NONCE_LEN as int)) {
                    None => self matches ChunkCheck::NotDecrypted(m) && m@
                        == "Encryption error: "@ + "Failed to decrypt data"@,
                    Some(code) => match decoded(code) {
                        Err(text) => self matches ChunkCheck::NotDecoded(m) && m@
                            == "Storage backend error: "@ + text,
                        Ok(chunk) => if hex_text(blake3_hash(chunk)@) == hash {
                            self is Verified
                        } else {
                            self matches ChunkCheck::WrongHash(h) && h@ == hex_text(
                                blake3_hash(chunk)@,
                            )
                        },
                    },
                }
            },
        }
    }
}

/// Checks a chunk against what storage holds under its hash.
pub fn check_chunk(keys: &KeyManager, hash: &str, stored: Option<&[u8]>) -> (out: ChunkCheck)
    ensures
        out.tells(
            keys.repo_key(),
            hash@,
            match stored {
                Some(data) => Some(data@),
                None => None,
            },
        ),
{
    let data = match stored {
        Some(d) => d,
        None => {
            return ChunkCheck::Missing;
        },
    };
    if data.len() < NONCE_LEN {
        return ChunkCheck::TooSmall;
    }
    let nonce = copy_range(data, 0, NONCE_LEN);
    let ciphertext = copy_range(data, NONCE_LEN, data.len());
    assert(nonce@ =~= data@.take(NONCE_LEN as int));
    assert(ciphertext@ =~= data@.skip(NONCE_LEN as int));
    let code = match keys.decrypt_data(ciphertext.as_slice(), nonce.as_slice()) {
        Ok(c) => c,
        Err(e) => {
            return ChunkCheck::NotDecrypted(e.describe());
        },
    };
    let chunk = match decode_chunk(code.as_slice()) {
        Ok(c) => c,
        Err(e) => {
            return ChunkCheck::NotDecoded(e.describe());
        },
    };
    let calculated = to_hex(hash_bytes(chunk.as_slice()).as_slice());
    if same_text(calculated.as_str(), hash) {
        ChunkCheck::Verified
    } else {
        ChunkCheck::WrongHash(calculated)
    }
}

/// A chunk passes the check where and only where a restore can read it.
pub proof fn verified_chunks_restore(
    check: ChunkCheck,
    key: Seq<u8>,
    hash: Seq<char>,
    stored: Option<Seq<u8>>,
)
    requires
        check.tells(key, hash, stored),
    ensures
        check is Verified <==> stored is Some && stored_chunk(key, hash, stored->0) is Some,
{
}

/// The message for a chunk that did not pass.
pub open spec fn check_message(check: ChunkCheck, hash: Seq<char>) -> Option<Seq<char>> {
    match check {
        ChunkCheck::Verified => None,
        ChunkCheck::Missing => Some("Missing chunk: "@ + hash),
        ChunkCheck::TooSmall => Some("Corrupted chunk (too small): "@ + hash),
        ChunkCheck::NotDecrypted(m) => Some("Failed to decrypt chunk "@ + hash + ": "@ + m@),
        ChunkCheck::NotDecoded(m) => Some("Failed to decompress chunk "@ + hash + ": "@ + m@),
        ChunkCheck::WrongHash(h) => Some(
            "Hash mismatch for chunk "@ + hash + ":\n    Expected: "@ + hash + "\n    Got: "@ + h@,
        ),
    }
}

impl ChunkCheck {
    /// The message for a chunk that did not pass.
    pub fn message(&self, hash: &str) -> (out: Option<String>)
        ensures
            out is Some <==> check_message(*self, hash@) is Some,
            out matches Some(m) ==> check_message(*self, hash@) == Some(m@),
    {
        match self {
            ChunkCheck::Verified => None,
            ChunkCheck::Missing => Some(concat2("Missing chunk: ", hash)),
            ChunkCheck::TooSmall => Some(concat2("Corrupted chunk (too small): ", hash)),
            ChunkCheck::NotDecrypted(m) => {
                let front = concat3("Failed to decrypt chunk ", hash, ": ");
                Some(concat2(front.as_str(), m.as_str()))
            },
            ChunkCheck::NotDecoded(m) => {
                let front = concat3("Failed to decompress chunk ", hash, ": ");
                Some(concat2(front.as_str(), m.as_str()))
            },
            ChunkCheck::WrongHash(h) => {
                let a = concat3("Hash mismatch for chunk ", hash, ":\n    Expected: ");
                let b = concat3(a.as_str(), hash, "\n    Got: ");
                Some(concat2(b.as_str(), h.as_str()))
            },
        }
    }
}

/// The counts of a check.
#[derive(Debug, Clone, Copy, PartialEq, Eq, Structural)]
pub struct VerifyTally {
    pub verified: u64,
    pub missing: u64,
    pub corrupted: u64,
    pub manifest_errors: u64,
}

impl VerifyTally {
    pub fn new() -> (out: Self)
        ensures
            out == (VerifyTally { verified: 0, missing: 0, corrupted: 0, manifest_errors: 0 }),
    {
        VerifyTally { verified: 0, missing: 0, corrupted: 0, manifest_errors: 0 }
    }

    /// How many chunks have been counted.
    pub open spec fn total(self) -> int {
        self.verified + self.missing + self.corrupted
    }

    /// Counts a chunk.
    pub fn count(&mut self, check: &ChunkCheck)
        requires
            old(self).total() < u64::MAX,
        ensures
            *final(self) == match *check {
                ChunkCheck::Verified => VerifyTally {
                    verified: (old(self).verified + 1) as u64,
                    ..*old(self)
                },
                ChunkCheck::Missing => VerifyTally {
                    missing: (old(self).missing + 1) as u64,
                    ..*old(self)
                },
                _ => VerifyTally { corrupted: (old(self).corrupted + 1) as u64, ..*old(self) },
            },
    {
        match check {
            ChunkCheck::Verified => {
                self.verified = self.verified + 1;
            },
            ChunkCheck::Missing => {
                self.missing = self.missing + 1;
            },
            _ => {
                self.corrupted = self.corrupted + 1;
            },
        }
    }

    /// The result of a check: an error where anything is missing or wrong.
    pub fn finish(&self) -> (out: Result<(), LazarusError>)
        ensures
            out is Ok <==> self.missing == 0 && self.corrupted == 0 && self.manifest_errors == 0,
            out matches Err(e) ==> e is VerificationFailed && e.detail() == decimal(
                self.missing as nat,
            ) + " missing, "@ + decimal(self.corrupted as nat) + " corrupted, "@ + decimal(
                self.manifest_errors as nat,
            ) + " manifest errors"@,
    {
        if self.missing > 0 || self.corrupted > 0 || self.manifest_errors > 0 {
            let a = concat2(decimal_string(self.missing).as_str(), " missing, ");
            let b = concat3(a.as_str(), decimal_string(self.corrupted).as_str(), " corrupted, ");
            let c = concat3(
                b.as_str(),
                decimal_string(self.manifest_errors).as_str(),
                " manifest errors",
            );
            Err(LazarusError::VerificationFailed(c))
        } else {
            Ok(())
        }
    }
}

/// Whether the progress is shown after the chunk at a position.
pub fn shows_progress(idx: usize) -> (yes: bool)
    requires
        idx < usize::MAX,
    ensures
        yes == (idx == 0 || (idx + 1) % 100 == 0),
{
    idx == 0 || (idx + 1) % 100 == 0
}

// --- Layouts -------------------------------------------------------------------------------

/// The block devices that a snapshot leads to.
pub fn block_objects(catalog: &CatalogIndex, root: i64) -> (out: Vec<i64>)
    requires
        catalog.wf(),
    ensures
        out@.no_duplicates(),
        forall|x: i64| #[trigger]
            out@.contains(x) <==> reachable(catalog@, root, x) && catalog@.has_object(x)
                && catalog@.object(x).kind == ObjectType::BlockDevice,
{
    let mut roots: Vec<i64> = Vec::new();
    roots.push(root);
    let objects = reachable_objects(catalog, &roots);
    let mut out: Vec<i64> = Vec::new();
    let mut i: usize = 0;
    while i < objects.len()
        invariant
            catalog.wf(),
            i <= objects@.len(),
            objects@.no_duplicates(),
            out@.no_duplicates(),
            forall|x: i64| #[trigger]
                out@.contains(x) <==> (objects@.take(i as int).contains(x) && catalog@.has_object(x)
                    && catalog@.object(x).kind == ObjectType::BlockDevice),
        decreases objects@.len() - i,
    {
        let id: i64 = objects[i];
        let ghost seen = objects@.take(i as int);
        let ghost more = objects@.take(i as int + 1);
        let ghost before = out@;
        proof {
            assert(more =~= seen.push(id));
            assert(!seen.contains(id));
            assert(!before.contains(id));
            assert forall|x: i64| #[trigger] more.contains(x) <==> seen.contains(x) || x == id by {
                if seen.contains(x) {
                    let k = choose|k: int| 0 <= k < seen.len() && seen[k] == x;
                    assert(more[k] == x);
                }
                assert(more[i as int] == id);
            }
        }
        let block = match catalog.get_object(id) {
            Some((kind, _)) => kind == ObjectType::BlockDevice,
            None => false,
        };
        if block {
            out.push(id);
            proof {
                assert(out@.no_duplicates()) by {
                    assert forall|a: int, b: int|
                        0 <= a < out@.len() && 0 <= b < out@.len() && a != b implies out@[a]
                        != out@[b] by {
                        if a < before.len() {
                            assert(before.contains(out@[a]));
                        }
                        if b < before.len() {
                            assert(before.contains(out@[b]));
                        }
                    }
                }
                assert forall|x: i64| #[trigger] out@.contains(x) <==> before.contains(x) || x
                    == id by {
                    if before.contains(x) {
                        let k = choose|k: int| 0 <= k < before.len() && before[k] == x;
                        assert(out@[k] == x);
                    }
                    assert(out@[before.len() as int] == id);
                }
            }
        }
        i += 1;
    }
    proof {
        assert(objects@.take(i as int) =~= objects@);
        assert forall|x: i64|
            reachable_from(catalog@, roots@, x) <==> #[trigger] reachable(catalog@, root, x) by {
            assert(roots@[0] == root);
        }
    }
    out
}

/// The front of a message about a block device.
pub open spec fn subject(snapshot: Seq<char>, object: i64) -> Seq<char> {
    "Snapshot "@ + snapshot + " block object "@ + signed_decimal(object as int)
}

/// What is wrong with an extent, where the one before it ends at `last`.
pub open spec fn extent_notes(
    e: ExtentLayout,
    last: int,
    device_size: int,
    front: Seq<char>,
) -> Seq<Seq<char>> {
    let a = if e.offset < last {
        seq![front + " has out-of-order extents"@]
    } else {
        Seq::empty()
    };
    let b = if capped(extent_end(e)) > device_size {
        a.push(front + " extent "@ + decimal(e.extent_idx as nat) + " exceeds device size"@)
    } else {
        a
    };
    if chunk_sum(e.chunks) != e.length {
        b.push(front + " extent "@ + decimal(e.extent_idx as nat) + " length mismatch"@)
    } else {
        b
    }
}

/// What is wrong with the first `n` extents.
pub open spec fn notes_upto(
    extents: Seq<ExtentLayout>,
    n: int,
    device_size: int,
    front: Seq<char>,
) -> Seq<Seq<char>>
    decreases n,
{
    if n <= 0 {
        Seq::empty()
    } else {
        notes_upto(extents, n - 1, device_size, front) + extent_notes(
            extents[n - 1],
            last_end(extents, n - 1),
            device_size,
            front,
        )
    }
}

/// Where the first `n` extents end.
pub open spec fn last_end(extents: Seq<ExtentLayout>, n: int) -> int {
    if n <= 0 {
        0
    } else {
        capped(extent_end(extents[n - 1])) as int
    }
}

/// Everything that is wrong with a layout.
pub open spec fn layout_notes(
    extents: Seq<ExtentLayout>,
    device_size: int,
    front: Seq<char>,
) -> Seq<Seq<char>> {
    let notes = notes_upto(extents, extents.len() as int, device_size, front);
    if capped(extent_sum(extents)) > device_size {
        notes.push(front + " allocated bytes exceed device size"@)
    } else {
        notes
    }
}

/// Whether the lengths of the chunks of each extent can be added up.
pub open spec fn sums_fit(extents: Seq<ExtentLayout>) -> bool {
    forall|i: int| 0 <= i < extents.len() ==> chunk_sum((#[trigger] extents[i]).chunks) <= u64::MAX
}

fn chunk_total(chunks: &Vec<BlockExtentChunk>) -> (out: Option<u64>)
    ensures
        out is Some <==> chunk_sum(facts(chunks@)) <= u64::MAX,
        out matches Some(n) ==> n == chunk_sum(facts(chunks@)),
{
    let ghost all = facts(chunks@);
    let mut total: u64 = 0;
    let mut i: usize = 0;
    assert(all.take(0) =~= Seq::<ChunkPlace>::empty());
    while i < chunks.len()
        invariant
            i <= chunks@.len(),
            all == facts(chunks@),
            total == chunk_sum(all.take(i as int)),
        decreases chunks@.len() - i,
    {
        assert(all.take(i as int + 1).drop_last() =~= all.take(i as int));
        assert(all[i as int] == chunks@[i as int]@);
        match total.checked_add(chunks[i].length) {
            Some(n) => {
                total = n;
            },
            None => {
                proof {
                    sum_grows(all, i as int + 1);
                }
                return None;
            },
        }
        i += 1;
    }
    assert(all.take(i as int) =~= all);
    Some(total)
}

proof fn sum_grows(chunks: Seq<ChunkPlace>, i: int)
    requires
        0 <= i <= chunks.len(),
    ensures
        chunk_sum(chunks.take(i)) <= chunk_sum(chunks),
    decreases chunks.len() - i,
{
    if i < chunks.len() {
        assert(chunks.take(i + 1).drop_last() =~= chunks.take(i));
        sum_grows(chunks, i + 1);
    } else {
        assert(chunks.take(i) =~= chunks);
    }
}

/// Whether the lengths of the chunks of each extent can be added up.
pub fn lengths_add_up(layout: &BlockLayout) -> (yes: bool)
    ensures
        yes == sums_fit(facts(layout.extents@)),
{
    let mut i: usize = 0;
    while i < layout.extents.len()
        invariant
            i <= layout.extents@.len(),
            forall|k: int|
                0 <= k < i ==> chunk_sum((#[trigger] facts(layout.extents@)[k]).chunks) <= u64::MAX,
        decreases layout.extents@.len() - i,
    {
        assert(facts(layout.extents@)[i as int] == layout.extents@[i as int]@);
        if chunk_total(&layout.extents[i].chunks).is_none() {
            return false;
        }
        i += 1;
    }
    true
}

proof fn capped_sum(extents: Seq<ExtentLayout>, n: int)
    requires
        0 <= n < extents.len(),
    ensures
        capped(extent_sum(extents.take(n + 1))) == capped(
            capped(extent_sum(extents.take(n))) + extents[n].length,
        ),
        extent_sum(extents.take(n)) >= 0,
{
    assert(extents.take(n + 1).drop_last() =~= extents.take(n));
    sum_nat(extents.take(n));
}

proof fn sum_nat(extents: Seq<ExtentLayout>)
    ensures
        extent_sum(extents) >= 0,
    decreases extents.len(),
{
    if extents.len() > 0 {
        sum_nat(extents.drop_last());
    }
}

fn note_extent(notes: &mut Vec<String>, e: &BlockExtent, last: u64, device_size: u64, front: &str)
    requires
        chunk_sum(e@.chunks) <= u64::MAX,
    ensures
        texts(final(notes)@) == texts(old(notes)@) + extent_notes(
            e@,
            last as int,
            device_size as int,
            front@,
        ),
{
    let ghost before = texts(notes@);
    if e.offset < last {
        push_text(notes, concat2(front, " has out-of-order extents").as_str());
    }
    let end: u64 = e.offset.saturating_add(e.length);
    assert(end == capped(extent_end(e@)));
    if end > device_size {
        let a = concat3(front, " extent ", decimal_string(e.extent_idx).as_str());
        push_text(notes, concat2(a.as_str(), " exceeds device size").as_str());
    }
    let total = match chunk_total(&e.chunks) {
        Some(n) => n,
        None => 0,
    };
    if total != e.length {
        let a = concat3(front, " extent ", decimal_string(e.extent_idx).as_str());
        push_text(notes, concat2(a.as_str(), " length mismatch").as_str());
    }
    assert(texts(notes@) =~= before + extent_notes(
        e@,
        last as int,
        device_size as int,
        front@,
    ));
}

/// Checks the layout of a block device. One message for each thing that is wrong.
pub fn verify_block_manifest(
    snapshot_id: &str,
    object_id: i64,
    layout: &BlockLayout,
    device_size: u64,
) -> (notes: Vec<String>)
    requires
        sums_fit(facts(layout.extents@)),
    ensures
        texts(notes@) == layout_notes(
            facts(layout.extents@),
            device_size as int,
            subject(snapshot_id@, object_id),
        ),
{
    let a = concat3("Snapshot ", snapshot_id, " block object ");
    let front = concat2(a.as_str(), signed_string(object_id).as_str());
    let ghost all = facts(layout.extents@);
    let mut notes: Vec<String> = Vec::new();
    let mut last: u64 = 0;
    let mut allocated: u64 = 0;
    let mut i: usize = 0;
    assert(texts(notes@) =~= Seq::<Seq<char>>::empty());
    assert(all.take(0) =~= Seq::<ExtentLayout>::empty());
    while i < layout.extents.len()
        invariant
            i <= layout.extents@.len(),
            all == facts(layout.extents@),
            sums_fit(all),
            front@ == subject(snapshot_id@, object_id),
            texts(notes@) == notes_upto(all, i as int, device_size as int, front@),
            last == last_end(all, i as int),
            allocated == capped(extent_sum(all.take(i as int))),
        decreases layout.extents@.len() - i,
    {
        let e = &layout.extents[i];
        assert(all[i as int] == e@);
        proof {
            capped_sum(all, i as int);
        }
        note_extent(&mut notes, e, last, device_size, front.as_str());
        allocated = allocated.saturating_add(e.length);
        last = e.offset.saturating_add(e.length);
        i += 1;
    }
    assert(all.take(i as int) =~= all);
    if allocated > device_size {
        push_text(&mut notes, concat2(
            front.as_str(),
            " allocated bytes exceed device size",
        ).as_str());
    }
    notes
}

proof fn sound_extents_pass(
    extents: Seq<ExtentLayout>,
    n: int,
    device_size: int,
    front: Seq<char>,
)
    requires
        sound_layout(extents, device_size),
        0 <= n <= extents.len(),
        0 <= device_size <= u64::MAX,
    ensures
        notes_upto(extents, n, device_size, front) == Seq::<Seq<char>>::empty(),
    decreases n,
{
    if n > 0 {
        sound_extents_pass(extents, n - 1, device_size, front);
        let e = extents[n - 1];
        assert(extent_end(e) <= device_size);
        if n > 1 {
            assert(extent_end(extents[n - 2]) <= extents[n - 1].offset);
            assert(extent_end(extents[n - 2]) <= device_size);
        }
        assert(extent_notes(e, last_end(extents, n - 1), device_size, front) =~= Seq::<
            Seq<char>,
        >::empty());
    }
}

/// Nothing is found wrong with a layout that a restore accepts.
pub proof fn sound_layouts_pass(
    extents: Seq<ExtentLayout>,
    device_size: int,
    front: Seq<char>,
)
    requires
        sound_layout(extents, device_size),
        0 <= device_size <= u64::MAX,
    ensures
        layout_notes(extents, device_size, front) == Seq::<Seq<char>>::empty(),
{
    sound_extents_pass(extents, extents.len() as int, device_size, front);
    sound_layouts_fit(extents, device_size);
    sum_nat(extents);
}

/// A layout without a note is in order: no extent begins before the one in front of it ends, none
/// reaches behind the end of the device, the chunks of each fill it, and all of them together are
/// no longer than the device.
pub proof fn unsound_layouts_are_noted(
    extents: Seq<ExtentLayout>,
    device_size: int,
    front: Seq<char>,
)
    requires
        0 <= device_size < u64::MAX,
        layout_notes(extents, device_size, front).len() == 0,
    ensures
        forall|i: int|
            0 <= i < extents.len() ==> {
                let e = #[trigger] extents[i];
                &&& e.offset + e.length <= device_size
                &&& chunk_sum(e.chunks) == e.length
                &&& i > 0 ==> extents[i - 1].offset + extents[i - 1].length <= e.offset
            },
        extent_sum(extents) <= device_size,
{
    let n = extents.len() as int;
    assert forall|i: int| 0 <= i < n implies {
        let e = #[trigger] extents[i];
        &&& e.offset + e.length <= device_size
        &&& chunk_sum(e.chunks) == e.length
        &&& i > 0 ==> extents[i - 1].offset + extents[i - 1].length <= e.offset
    } by {
        no_note_before(extents, n, device_size, front, i);
        if i > 0 {
            no_note_before(extents, n, device_size, front, i - 1);
        }
    }
}

proof fn no_note_before(
    extents: Seq<ExtentLayout>,
    n: int,
    device_size: int,
    front: Seq<char>,
    i: int,
)
    requires
        0 <= i < n <= extents.len(),
        notes_upto(extents, n, device_size, front).len() == 0,
    ensures
        extent_notes(extents[i], last_end(extents, i), device_size, front).len() == 0,
    decreases n,
{
    if i < n - 1 {
        no_note_before(extents, n - 1, device_size, front, i);
    }
}

/// A chunk is good only where it is there, decrypts under the data key, decodes, and has the hash
/// under which it is kept; and only a good one is reported as good.
pub proof fn only_intact_chunks_pass(
    check: ChunkCheck,
    key: Seq<u8>,
    hash: Seq<char>,
    data: Seq<u8>,
)
    requires
        check.tells(key, hash, Some(data)),
    ensures
        check is Verified <==> {
            &&& data.len() >= 12
            &&& aes256gcm_open(key, data.take(12), data.skip(12)) matches Some(code)
            &&& decoded(code) matches Ok(chunk)
            &&& hex_text(blake3_hash(chunk)@) == hash
        },
        data.len() < 12 <==> check is TooSmall,
        !(check is Missing),
{
}

/// What is not there is missing.
pub proof fn absent_chunks_are_missing(check: ChunkCheck, key: Seq<u8>, hash: Seq<char>)
    requires
        check.tells(key, hash, None),
    ensures
        check is Missing,
{
}

/// A chunk that passes leaves no message; every other one is named with what is wrong.
pub proof fn bad_chunks_are_named(check: ChunkCheck, hash: Seq<char>)
    ensures
        check_message(check, hash) is None <==> check is Verified,
        check is Missing ==> check_message(check, hash) == Some("Missing chunk: "@ + hash),
        check is TooSmall ==> check_message(check, hash) == Some(
            "Corrupted chunk (too small): "@ + hash,
        ),
        check matches ChunkCheck::NotDecrypted(why) ==> check_message(check, hash) == Some(
            "Failed to decrypt chunk "@ + hash + ": "@ + why@,
        ),
        check matches ChunkCheck::NotDecoded(why) ==> check_message(check, hash) == Some(
            "Failed to decompress chunk "@ + hash + ": "@ + why@,
        ),
        check matches ChunkCheck::WrongHash(found) ==> check_message(check, hash) == Some(
            "Hash mismatch for chunk "@ + hash + ":\n    Expected: "@ + hash + "\n    Got: "@ + found@,
        ),
{
}

} // verus!
