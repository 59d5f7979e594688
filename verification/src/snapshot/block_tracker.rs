//! What the last backup saw of every file, so that unchanged files need not be read again.
use crate::bytes::hash_at;
use crate::catalog::rows::as_signed;
use crate::catalog::rows::facts;
use crate::catalog::rows::facts_push;
use crate::catalog::rows::has_key;
use crate::catalog::rows::has_key_push;
use crate::catalog::rows::insert_by_key;
use crate::catalog::rows::items;
use crate::catalog::rows::kept;
use crate::catalog::rows::kept_contains;
use crate::catalog::rows::kept_keyed;
use crate::catalog::rows::kept_step;
use crate::catalog::rows::keyed;
use crate::catalog::rows::keyed_facts;
use crate::catalog::rows::keyed_push;
use crate::catalog::rows::row_of;
use crate::catalog::rows::row_of_unique;
use crate::catalog::rows::signed;
use crate::catalog::rows::sorted;
use crate::catalog::rows::sorted_is_sorted;
use crate::catalog::rows::sorted_push;
use crate::catalog::rows::strip_keys;
use crate::error::LazarusError;
use crate::text::copy_text;
use crate::text::same_text;
use vstd::prelude::*;

verus! {

/// A chunk of a file.
#[derive(Debug, Clone, Copy, PartialEq, Eq)]
pub struct ChunkRef {
    pub hash: [u8; 32],
    /// The position of the chunk in the file.
    pub order: u64,
    pub length: u64,
}

impl View for ChunkRef {
    type V = ChunkRef;

    open spec fn view(&self) -> ChunkRef {
        *self
    }
}

/// What is known of a file.
#[verifier::ext_equal]
pub struct FileFact {
    pub path: Seq<char>,
    pub mtime: u64,
    pub size: u64,
    pub chunks: Seq<ChunkRef>,
}

#[derive(Debug)]
struct FileState {
    path: String,
    mtime: u64,
    size: u64,
    chunks: Vec<ChunkRef>,
}

impl View for FileState {
    type V = FileFact;

    closed spec fn view(&self) -> FileFact {
        FileFact {
            path: self.path@,
            mtime: self.mtime,
            size: self.size,
            chunks: facts(self.chunks@),
        }
    }
}

pub open spec fn file_key() -> spec_fn(FileFact) -> Seq<char> {
    |f: FileFact| f.path
}

pub open spec fn other_file(path: Seq<char>) -> spec_fn(FileFact) -> bool {
    |f: FileFact| f.path != path
}

/// The chunks under their positions.
pub open spec fn by_order(chunks: Seq<ChunkRef>) -> Seq<(i64, ChunkRef)> {
    Seq::new(chunks.len(), |i: int| (signed(chunks[i].order) as i64, chunks[i]))
}

/// The chunks in the order of their positions.
pub open spec fn in_order(chunks: Seq<ChunkRef>) -> Seq<ChunkRef> {
    items(sorted(by_order(chunks)))
}

/// Whether two chunks have the same position.
pub open spec fn order_clash(chunks: Seq<ChunkRef>) -> bool {
    exists|i: int, j: int|
        0 <= i < j < chunks.len() && (#[trigger] chunks[i]).order == (#[trigger] chunks[j]).order
}

/// The chunks of a file that has not changed since it was recorded.
pub open spec fn unchanged(
    files: Seq<FileFact>,
    path: Seq<char>,
    mtime: u64,
    size: u64,
) -> Option<Seq<ChunkRef>> {
    let f = row_of(files, file_key(), path);
    if has_key(files, file_key(), path) && f.mtime == mtime && f.size == size {
        Some(f.chunks)
    } else {
        None
    }
}

/// The state of all files.
pub struct BlockTracker {
    files: Vec<FileState>,
}

impl View for BlockTracker {
    type V = Seq<FileFact>;

    closed spec fn view(&self) -> Seq<FileFact> {
        facts(self.files@)
    }
}

proof fn kept_others(files: Seq<FileFact>, path: Seq<char>, other: Seq<char>)
    requires
        keyed(files, file_key()),
    ensures
        has_key(kept(files, other_file(path)), file_key(), other) <==> (has_key(
            files,
            file_key(),
            other,
        ) && other != path),
        other != path && has_key(files, file_key(), other) ==> row_of(
            kept(files, other_file(path)),
            file_key(),
            other,
        ) == row_of(files, file_key(), other),
{
    let k = kept(files, other_file(path));
    kept_keyed(files, other_file(path), file_key());
    if has_key(k, file_key(), other) {
        let i = choose|i: int| 0 <= i < k.len() && file_key()(#[trigger] k[i]) == other;
        kept_contains(files, other_file(path), k[i]);
        assert(k.contains(k[i]));
        let j = choose|j: int| 0 <= j < files.len() && files[j] == k[i];
        assert(file_key()(files[j]) == other);
    }
    if has_key(files, file_key(), other) && other != path {
        let j = choose|j: int| 0 <= j < files.len() && file_key()(#[trigger] files[j]) == other;
        kept_contains(files, other_file(path), files[j]);
        assert(files.contains(files[j]));
        let i = choose|i: int| 0 <= i < k.len() && k[i] == files[j];
        assert(file_key()(k[i]) == other);
        row_of_unique(files, file_key(), j);
        row_of_unique(k, file_key(), i);
    }
}

fn has_order_clash(chunks: &[ChunkRef]) -> (clash: bool)
    ensures
        clash == order_clash(chunks@),
{
    let mut i: usize = 0;
    while i < chunks.len()
        invariant
            i <= chunks@.len(),
            forall|a: int, b: int|
                0 <= a < b < i ==> (#[trigger] chunks@[a]).order != (#[trigger] chunks@[b]).order,
        decreases chunks@.len() - i,
    {
        let mut j: usize = 0;
        while j < i
            invariant
                j <= i < chunks@.len(),
                forall|a: int|
                    0 <= a < j ==> (#[trigger] chunks@[a]).order != chunks@[i as int].order,
            decreases i - j,
        {
            if chunks[j].order == chunks[i].order {
                return true;
            }
            j += 1;
        }
        i += 1;
    }
    false
}

/// Whether the hash of every chunk has the length of a hash.
pub open spec fn undamaged(rows: Seq<(u64, Vec<u8>, u64)>) -> bool {
    forall|i: int| 0 <= i < rows.len() ==> (#[trigger] rows[i]).1@.len() == 32
}

/// The chunks of a file as a database holds them: position, hash and length of each. `None` where
/// a hash is damaged: the file is then read again.
pub fn stored_chunks(rows: &Vec<(u64, Vec<u8>, u64)>) -> (out: Option<Vec<ChunkRef>>)
    ensures
        out is Some <==> undamaged(rows@),
        out matches Some(chunks) ==> {
            &&& chunks@.len() == rows@.len()
            &&& forall|i: int|
                0 <= i < rows@.len() ==> {
                    &&& (#[trigger] chunks@[i]).order == rows@[i].0
                    &&& chunks@[i].hash@ == rows@[i].1@
                    &&& chunks@[i].length == rows@[i].2
                }
        },
{
    let mut chunks: Vec<ChunkRef> = Vec::new();
    let mut i: usize = 0;
    while i < rows.len()
        invariant
            i <= rows@.len(),
            chunks@.len() == i,
            forall|j: int| 0 <= j < i ==> (#[trigger] rows@[j]).1@.len() == 32,
            forall|j: int|
                0 <= j < i ==> {
                    &&& (#[trigger] chunks@[j]).order == rows@[j].0
                    &&& chunks@[j].hash@ == rows@[j].1@
                    &&& chunks@[j].length == rows@[j].2
                },
        decreases rows@.len() - i,
    {
        let row = &rows[i];
        if row.1.len() != 32 {
            return None;
        }
        let hash = hash_at(row.1.as_slice(), 0);
        assert(hash@ =~= row.1@);
        chunks.push(ChunkRef { hash, order: row.0, length: row.2 });
        i += 1;
    }
    Some(chunks)
}

impl BlockTracker {
    /// Every file is recorded once.
    pub open spec fn wf(&self) -> bool {
        keyed(self@, file_key())
    }

    pub fn new() -> (out: Self)
        ensures
            out.wf(),
            out@ == Seq::<FileFact>::empty(),
    {
        let out = BlockTracker { files: Vec::new() };
        assert(out@ =~= Seq::<FileFact>::empty());
        out
    }

    /// Forgets a file; nothing changes where it is not known.
    pub fn forget(&mut self, path: &str)
        requires
            old(self).wf(),
        ensures
            final(self).wf(),
            final(self)@ == kept(old(self)@, other_file(path@)),
            !has_key(final(self)@, file_key(), path@),
    {
        let ghost before = self@;
        let ghost cond = other_file(path@);
        let mut rest: Vec<FileState> = Vec::new();
        let ghost mut i: int = 0;
        let ghost all = self.files@;
        std::mem::swap(&mut rest, &mut self.files);
        assert(facts(self.files@) =~= kept(facts(all).take(0), cond));
        while rest.len() > 0
            invariant
                0 <= i <= all.len(),
                rest@ == all.skip(i),
                cond == other_file(path@),
                facts(self.files@) == kept(facts(all).take(i), cond),
            decreases rest@.len(),
        {
            let row = rest.remove(0);
            proof {
                assert(row == all[i]);
                assert(rest@ =~= all.skip(i + 1));
                kept_step(facts(all), cond, i);
                facts_push(self.files@, row);
            }
            if !same_text(row.path.as_str(), path) {
                self.files.push(row);
            }
            proof {
                i = i + 1;
            }
        }
        proof {
            assert(facts(all).take(i) =~= facts(all));
            kept_keyed(before, cond, file_key());
            kept_others(before, path@, path@);
        }
    }

    /// Records the state and the chunks of a file, in place of what was known. It fails, and
    /// changes nothing, where two chunks have the same position.
    pub fn record_file(&mut self, path: &str, mtime: u64, size: u64, chunks: &[ChunkRef]) -> (out:
        Result<(), LazarusError>)
        requires
            old(self).wf(),
        ensures
            final(self).wf(),
            out is Err <==> order_clash(chunks@),
            match out {
                Ok(_) => {
                    &&& final(self)@ == kept(old(self)@, other_file(path@)).push(
                        FileFact { path: path@, mtime, size, chunks: in_order(chunks@) },
                    )
                    &&& unchanged(final(self)@, path@, mtime, size) == Some(in_order(chunks@))
                    &&& forall|m: u64, s: u64|
                        m != mtime || s != size ==> #[trigger] unchanged(final(self)@, path@, m, s)
                            is None
                    &&& forall|p: Seq<char>, m: u64, s: u64|
                        p != path@ ==> #[trigger] unchanged(final(self)@, p, m, s) == unchanged(
                            old(self)@,
                            p,
                            m,
                            s,
                        )
                },
                Err(e) => {
                    &&& e is DatabaseError
                    &&& e.detail()
                        == "UNIQUE constraint failed: FileChunks.path, FileChunks.chunk_order"@
                    &&& final(self)@ == old(self)@
                },
            },
    {
        if has_order_clash(chunks) {
            return Err(
                LazarusError::DatabaseError(
                    copy_text("UNIQUE constraint failed: FileChunks.path, FileChunks.chunk_order"),
                ),
            );
        }
        let mut list: Vec<(i64, ChunkRef)> = Vec::new();
        let mut k: usize = 0;
        assert(keyed_facts(list@) =~= sorted(by_order(chunks@.take(0))));
        while k < chunks.len()
            invariant
                k <= chunks@.len(),
                keyed_facts(list@) == sorted(by_order(chunks@.take(k as int))),
            decreases chunks@.len() - k,
        {
            let key = as_signed(chunks[k].order);
            proof {
                let front = chunks@.take(k as int);
                let next = chunks@.take(k as int + 1);
                assert(by_order(next) =~= by_order(front).push((key, chunks@[k as int])));
                sorted_push(by_order(front), key, chunks@[k as int]);
            }
            insert_by_key(&mut list, key, chunks[k]);
            k += 1;
        }
        assert(chunks@.take(k as int) =~= chunks@);
        let ordered = strip_keys(list);
        let ghost before = self@;
        self.forget(path);
        let ghost middle = self@;
        let row = FileState { path: copy_text(path), mtime, size, chunks: ordered };
        proof {
            facts_push(self.files@, row);
            keyed_push(self@, file_key(), row@);
        }
        self.files.push(row);
        proof {
            let now = self@;
            assert(now == middle.push(row@));
            assert(now[middle.len() as int] == row@);
            row_of_unique(now, file_key(), middle.len() as int);
            assert forall|p: Seq<char>, m: u64, s: u64| p != path@ implies #[trigger] unchanged(
                now,
                p,
                m,
                s,
            ) == unchanged(before, p, m, s) by {
                kept_others(before, path@, p);
                has_key_push(middle, file_key(), row@, p);
                if has_key(middle, file_key(), p) {
                    let a = choose|a: int|
                        0 <= a < middle.len() && file_key()(#[trigger] middle[a]) == p;
                    assert(now[a] == middle[a]);
                    row_of_unique(now, file_key(), a);
                    row_of_unique(middle, file_key(), a);
                }
            }
        }
        Ok(())
    }

    /// The chunks of a file whose time and size are as recorded; `None` means that the file has
    /// to be read.
    pub fn lookup_unchanged(&self, path: &str, mtime: u64, size: u64) -> (out: Option<
        Vec<ChunkRef>,
    >)
        requires
            self.wf(),
        ensures
            out is Some <==> unchanged(self@, path@, mtime, size) is Some,
            out matches Some(c) ==> unchanged(self@, path@, mtime, size) == Some(c@),
    {
        let mut i: usize = 0;
        while i < self.files.len()
            invariant
                self.wf(),
                i <= self.files@.len(),
                forall|j: int| 0 <= j < i ==> file_key()(#[trigger] self@[j]) != path@,
            decreases self.files@.len() - i,
        {
            let file = &self.files[i];
            assert(self@[i as int] == file@);
            if same_text(file.path.as_str(), path) {
                proof {
                    row_of_unique(self@, file_key(), i as int);
                }
                if file.mtime != mtime || file.size != size {
                    return None;
                }
                let copy = vstd::slice::slice_to_vec(file.chunks.as_slice());
                assert(copy@ =~= facts(file.chunks@));
                return Some(copy);
            }
            i += 1;
        }
        None
    }

    /// Forgets all files.
    pub fn clear(&mut self)
        ensures
            final(self).wf(),
            final(self)@ == Seq::<FileFact>::empty(),
    {
        self.files.clear();
        assert(self@ =~= Seq::<FileFact>::empty());
    }

    /// How many files are recorded.
    pub fn len(&self) -> (out: u64)
        ensures
            out == self@.len(),
    {
        self.files.len() as u64
    }
}

/// A file counts as unchanged only where its path, time and size are all as recorded; its chunks
/// are then the recorded ones.
pub proof fn only_recorded_states_are_unchanged(
    files: Seq<FileFact>,
    path: Seq<char>,
    mtime: u64,
    size: u64,
)
    ensures
        unchanged(files, path, mtime, size) matches Some(chunks) ==> exists|i: int|
            0 <= i < files.len() && (#[trigger] files[i]).path == path && files[i].mtime == mtime
                && files[i].size == size && files[i].chunks == chunks,
        keyed(files, file_key()) ==> forall|i: int|
            0 <= i < files.len() && (#[trigger] files[i]).path == path && files[i].mtime == mtime
                && files[i].size == size ==> unchanged(files, path, mtime, size) == Some(
                files[i].chunks,
            ),
{
    if has_key(files, file_key(), path) {
        let i = choose|i: int| 0 <= i < files.len() && file_key()(#[trigger] files[i]) == path;
        if keyed(files, file_key()) {
            row_of_unique(files, file_key(), i);
        }
    }
    if keyed(files, file_key()) {
        assert forall|i: int|
            0 <= i < files.len() && (#[trigger] files[i]).path == path && files[i].mtime == mtime
                && files[i].size == size implies unchanged(files, path, mtime, size) == Some(
            files[i].chunks,
        ) by {
            assert(file_key()(files[i]) == path);
            row_of_unique(files, file_key(), i);
        }
    }
}

/// Forgetting a file takes its record and no other.
pub proof fn only_that_file_is_forgotten(files: Seq<FileFact>, path: Seq<char>, f: FileFact)
    ensures
        kept(files, other_file(path)).contains(f) <==> files.contains(f) && f.path != path,
{
    kept_contains(files, other_file(path), f);
}

/// Two chunks clash where they have the same position. Chunks without a clash are kept in the order
/// of their positions, none more and none less.
pub proof fn chunks_are_kept_in_order(chunks: Seq<ChunkRef>)
    requires
        forall|i: int| 0 <= i < chunks.len() ==> (#[trigger] chunks[i]).order <= i64::MAX,
    ensures
        order_clash(chunks) <==> !forall|i: int, j: int|
            0 <= i < j < chunks.len() ==> (#[trigger] chunks[i]).order != (
            #[trigger] chunks[j]).order,
        in_order(chunks).len() == chunks.len(),
        forall|i: int, j: int|
            0 <= i < j < in_order(chunks).len() ==> (#[trigger] in_order(chunks)[i]).order <= (
            #[trigger] in_order(chunks)[j]).order,
        forall|i: int| 0 <= i < in_order(chunks).len() ==> chunks.contains(#[trigger] in_order(chunks)[i]),
{
    let pairs = by_order(chunks);
    let s = sorted(pairs);
    sorted_is_sorted(pairs);
    assert forall|i: int| 0 <= i < s.len() implies {
        &&& chunks.contains((#[trigger] s[i]).1)
        &&& s[i].0 == s[i].1.order
    } by {
        vstd::seq_lib::to_multiset_contains(s, s[i]);
        assert(s.contains(s[i]));
        assert(s.to_multiset().count(s[i]) > 0);
        assert(pairs.to_multiset().count(s[i]) > 0);
        vstd::seq_lib::to_multiset_contains(pairs, s[i]);
        let k = choose|k: int| 0 <= k < pairs.len() && pairs[k] == s[i];
        assert(pairs[k].1 == chunks[k]);
        assert(chunks[k].order <= i64::MAX);
    }
    let list = in_order(chunks);
    assert forall|i: int, j: int| 0 <= i < j < list.len() implies (#[trigger] list[i]).order <= (
    #[trigger] list[j]).order by {
        assert(s[i].0 <= s[j].0);
    }
}

/// Stored chunks are undamaged where every hash has its 32 bytes.
pub proof fn hashes_have_their_length(rows: Seq<(u64, Vec<u8>, u64)>, i: int)
    requires
        0 <= i < rows.len(),
    ensures
        undamaged(rows) ==> rows[i].1@.len() == 32,
        rows[i].1@.len() != 32 ==> !undamaged(rows),
{
}

} // verus!
