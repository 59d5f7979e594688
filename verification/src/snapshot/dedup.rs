//! Which snapshot refers to which chunk.
//!
//! The number of snapshots that refer to a chunk is its reference count. A chunk may go only when
//! the count is zero.
use crate::bytes::hash_at;
use crate::bytes::hash_from_hex;
use crate::bytes::hash_of_hex;
use crate::bytes::hex_digit;
use crate::bytes::hex_text;
use crate::bytes::hex_text_digits;
use crate::bytes::hex_text_injective;
use crate::bytes::same_hash;
use crate::bytes::to_hex;
use crate::catalog::index::chunk_hashes;
use crate::catalog::index::CatalogIndex;
use crate::catalog::rows::facts;
use crate::catalog::rows::facts_push;
use crate::catalog::rows::has_key;
use crate::catalog::rows::has_key_push;
use crate::catalog::rows::kept;
use crate::catalog::rows::kept_contains;
use crate::catalog::rows::kept_keyed;
use crate::catalog::rows::kept_step;
use crate::catalog::rows::keyed;
use crate::catalog::rows::keyed_push;
use crate::text::copy_text;
use crate::text::from_chars;
use crate::text::holds_text;
use crate::text::same_text;
use crate::text::texts;
use crate::text::texts_push;
use crate::text::to_chars;
use vstd::prelude::*;

verus! {

/// A reference of a snapshot to a chunk.
#[verifier::ext_equal]
pub struct RefFact {
    pub hash: [u8; 32],
    pub snapshot: Seq<char>,
}

#[derive(Debug)]
struct RefRow {
    hash: [u8; 32],
    snapshot: String,
}

impl View for RefRow {
    type V = RefFact;

    closed spec fn view(&self) -> RefFact {
        RefFact { hash: self.hash, snapshot: self.snapshot@ }
    }
}

pub open spec fn ref_key() -> spec_fn(RefFact) -> ([u8; 32], Seq<char>) {
    |r: RefFact| (r.hash, r.snapshot)
}

/// Whether the snapshot refers to the chunk.
pub open spec fn refers(refs: Seq<RefFact>, hash: [u8; 32], snapshot: Seq<char>) -> bool {
    has_key(refs, ref_key(), (hash, snapshot))
}

pub open spec fn of_hash(hash: [u8; 32]) -> spec_fn(RefFact) -> bool {
    |r: RefFact| r.hash == hash
}

pub open spec fn of_snapshot(snapshot: Seq<char>) -> spec_fn(RefFact) -> bool {
    |r: RefFact| r.snapshot == snapshot
}

pub open spec fn of_other_snapshot(snapshot: Seq<char>) -> spec_fn(RefFact) -> bool {
    |r: RefFact| r.snapshot != snapshot
}

pub open spec fn not_the_reference(hash: [u8; 32], snapshot: Seq<char>) -> spec_fn(RefFact) -> bool {
    |r: RefFact| !(r.hash == hash && r.snapshot == snapshot)
}

/// How many references the chunk has.
pub open spec fn reference_count(refs: Seq<RefFact>, hash: [u8; 32]) -> nat {
    kept(refs, of_hash(hash)).len()
}

/// The table with one more reference; the same table where it is there already.
pub open spec fn with_reference(
    refs: Seq<RefFact>,
    hash: [u8; 32],
    snapshot: Seq<char>,
) -> Seq<RefFact> {
    if refers(refs, hash, snapshot) {
        refs
    } else {
        refs.push(RefFact { hash, snapshot })
    }
}

/// The table with references of a snapshot to all chunks of a list.
pub open spec fn with_references(
    refs: Seq<RefFact>,
    snapshot: Seq<char>,
    chunks: Seq<[u8; 32]>,
) -> Seq<RefFact>
    decreases chunks.len(),
{
    if chunks.len() == 0 {
        refs
    } else {
        with_reference(
            with_references(refs, snapshot, chunks.drop_last()),
            chunks.last(),
            snapshot,
        )
    }
}

/// The table without the references of a snapshot.
pub open spec fn without_snapshot(refs: Seq<RefFact>, snapshot: Seq<char>) -> Seq<RefFact> {
    kept(refs, of_other_snapshot(snapshot))
}

/// The table without the references of several snapshots.
pub open spec fn without_snapshots(refs: Seq<RefFact>, gone: Seq<Seq<char>>) -> Seq<RefFact>
    decreases gone.len(),
{
    if gone.len() == 0 {
        refs
    } else {
        without_snapshot(without_snapshots(refs, gone.drop_last()), gone.last())
    }
}

/// Whether a chunk loses its last reference when the given snapshots go: at least one of them
/// refers to it, and no other snapshot does.
pub open spec fn orphaned(refs: Seq<RefFact>, gone: Seq<Seq<char>>, hash: [u8; 32]) -> bool {
    &&& exists|s: Seq<char>| #[trigger] refers(refs, hash, s) && gone.contains(s)
    &&& forall|s: Seq<char>| #[trigger] refers(refs, hash, s) ==> gone.contains(s)
}

/// The hashes of a list of references.
pub open spec fn hashes(refs: Seq<RefFact>) -> Seq<[u8; 32]> {
    Seq::new(refs.len(), |i: int| refs[i].hash)
}

/// The hashes of a list of references in hexadecimal.
pub open spec fn hex_hashes(refs: Seq<RefFact>) -> Seq<Seq<char>> {
    Seq::new(refs.len(), |i: int| hex_text(refs[i].hash@))
}

/// A text with the upper-case ASCII letters replaced by lower-case ones.
pub open spec fn lower_ascii(s: Seq<char>) -> Seq<char> {
    Seq::new(s.len(), |i: int| lower_char(s[i]))
}

pub open spec fn lower_char(c: char) -> char {
    if 'A' <= c <= 'Z' {
        (c as u32 + 32) as char
    } else {
        c
    }
}

/// Whether some snapshot refers to the chunk whose hash has the given hexadecimal form.
pub open spec fn refers_to_hex(refs: Seq<RefFact>, hex: Seq<char>) -> bool {
    exists|i: int| 0 <= i < refs.len() && hex_text((#[trigger] refs[i]).hash@) == lower_ascii(hex)
}

pub open spec fn unreferenced_hex(refs: Seq<RefFact>) -> spec_fn(Seq<char>) -> bool {
    |hex: Seq<char>| !refers_to_hex(refs, hex)
}

/// The hashes that a list of texts stands for; other texts are passed over.
pub open spec fn parsed_hashes(list: Seq<Seq<char>>) -> Seq<Seq<u8>>
    decreases list.len(),
{
    if list.len() == 0 {
        Seq::empty()
    } else {
        match hash_from_hex(list.last()) {
            Some(h) => parsed_hashes(list.drop_last()).push(h),
            None => parsed_hashes(list.drop_last()),
        }
    }
}

pub open spec fn hash_views(list: Seq<[u8; 32]>) -> Seq<Seq<u8>> {
    Seq::new(list.len(), |i: int| list[i]@)
}

proof fn kept_refers(
    refs: Seq<RefFact>,
    cond: spec_fn(RefFact) -> bool,
    hash: [u8; 32],
    snapshot: Seq<char>,
)
    ensures
        refers(kept(refs, cond), hash, snapshot) <==> (refers(refs, hash, snapshot) && cond(
            RefFact { hash, snapshot },
        )),
{
    let row = RefFact { hash, snapshot };
    let k = kept(refs, cond);
    kept_contains(refs, cond, row);
    if refers(k, hash, snapshot) {
        let i = choose|i: int|
            0 <= i < k.len() && ref_key()(#[trigger] k[i]) == (hash, snapshot);
        assert(k[i] =~= row);
        assert(k.contains(row));
        let j = choose|j: int| 0 <= j < refs.len() && refs[j] == row;
        assert(ref_key()(refs[j]) == (hash, snapshot));
    }
    if refers(refs, hash, snapshot) && cond(row) {
        let i = choose|i: int|
            0 <= i < refs.len() && ref_key()(#[trigger] refs[i]) == (hash, snapshot);
        assert(refs[i] =~= row);
        assert(refs.contains(row));
        let j = choose|j: int| 0 <= j < k.len() && k[j] == row;
        assert(ref_key()(k[j]) == (hash, snapshot));
    }
}

/// A chunk has references exactly where a snapshot refers to it.
pub proof fn counted_where_referred(refs: Seq<RefFact>, hash: [u8; 32])
    ensures
        reference_count(refs, hash) > 0 <==> exists|s: Seq<char>| #[trigger] refers(refs, hash, s),
{
    let k = kept(refs, of_hash(hash));
    if k.len() > 0 {
        kept_contains(refs, of_hash(hash), k[0]);
        assert(k.contains(k[0]));
        let j = choose|j: int| 0 <= j < refs.len() && refs[j] == k[0];
        assert(ref_key()(refs[j]) == (hash, k[0].snapshot));
        assert(refers(refs, hash, k[0].snapshot));
    }
    if exists|s: Seq<char>| #[trigger] refers(refs, hash, s) {
        let s = choose|s: Seq<char>| #[trigger] refers(refs, hash, s);
        kept_refers(refs, of_hash(hash), hash, s);
    }
}

/// The reference count of a chunk is the number of snapshots that refer to it.
pub proof fn count_is_number_of_snapshots(refs: Seq<RefFact>, hash: [u8; 32])
    requires
        keyed(refs, ref_key()),
    ensures
        Set::new(|s: Seq<char>| refers(refs, hash, s)).finite(),
        Set::new(|s: Seq<char>| refers(refs, hash, s)).len() == reference_count(refs, hash),
{
    let k = kept(refs, of_hash(hash));
    let names = Seq::new(k.len(), |i: int| k[i].snapshot);
    let set = Set::new(|s: Seq<char>| refers(refs, hash, s));
    kept_keyed(refs, of_hash(hash), ref_key());
    assert forall|i: int| 0 <= i < k.len() implies (#[trigger] k[i]).hash == hash by {
        kept_contains(refs, of_hash(hash), k[i]);
        assert(k.contains(k[i]));
    }
    assert(names.no_duplicates()) by {
        assert forall|i: int, j: int|
            0 <= i < names.len() && 0 <= j < names.len() && i != j implies names[i] != names[j] by {
            if i < j {
                assert(ref_key()(k[i]) != ref_key()(k[j]));
            } else {
                assert(ref_key()(k[j]) != ref_key()(k[i]));
            }
        }
    }
    names.unique_seq_to_set();
    assert(set =~= names.to_set()) by {
        assert forall|s: Seq<char>| set.contains(s) <==> names.to_set().contains(s) by {
            kept_refers(refs, of_hash(hash), hash, s);
            if set.contains(s) {
                let i = choose|i: int| 0 <= i < k.len() && ref_key()(#[trigger] k[i]) == (hash, s);
                assert(names[i] == s);
            }
            if names.to_set().contains(s) {
                let i = choose|i: int| 0 <= i < names.len() && names[i] == s;
                assert(ref_key()(k[i]) == (hash, s));
            }
        }
    }
    vstd::seq_lib::seq_to_set_is_finite(names);
}

proof fn without_snapshots_refers(
    refs: Seq<RefFact>,
    gone: Seq<Seq<char>>,
    hash: [u8; 32],
    snapshot: Seq<char>,
)
    ensures
        refers(without_snapshots(refs, gone), hash, snapshot) <==> (refers(refs, hash, snapshot)
            && !gone.contains(snapshot)),
    decreases gone.len(),
{
    if gone.len() > 0 {
        let front = gone.drop_last();
        without_snapshots_refers(refs, front, hash, snapshot);
        kept_refers(
            without_snapshots(refs, front),
            of_other_snapshot(gone.last()),
            hash,
            snapshot,
        );
        assert(gone.contains(snapshot) <==> (front.contains(snapshot) || snapshot == gone.last()))
            by {
            assert(gone[gone.len() - 1] == gone.last());
            if front.contains(snapshot) {
                let i = choose|i: int| 0 <= i < front.len() && front[i] == snapshot;
                assert(gone[i] == snapshot);
            }
            if gone.contains(snapshot) {
                let i = choose|i: int| 0 <= i < gone.len() && gone[i] == snapshot;
                if i < front.len() {
                    assert(front[i] == snapshot);
                }
            }
        }
    }
}

/// A chunk that a remaining snapshot refers to is never orphaned, and one that is orphaned has no
/// reference left once the snapshots are gone.
pub proof fn orphans_are_unreferenced(refs: Seq<RefFact>, gone: Seq<Seq<char>>, hash: [u8; 32])
    ensures
        orphaned(refs, gone, hash) ==> reference_count(without_snapshots(refs, gone), hash) == 0,
        (exists|s: Seq<char>| #[trigger] refers(refs, hash, s) && !gone.contains(s)) ==> !orphaned(
            refs,
            gone,
            hash,
        ),
{
    let after = without_snapshots(refs, gone);
    counted_where_referred(after, hash);
    if orphaned(refs, gone, hash) && reference_count(after, hash) > 0 {
        let s = choose|s: Seq<char>| #[trigger] refers(after, hash, s);
        without_snapshots_refers(refs, gone, hash, s);
    }
}

/// Figures about the table.
#[derive(Debug, Clone, Copy, PartialEq, Eq, Structural)]
pub struct DedupStats {
    /// How many chunks have a reference.
    pub referenced_chunks: u64,
    /// How many references there are.
    pub total_references: u64,
    /// How many snapshots have a reference.
    pub referencing_snapshots: u64,
}

/// The references of all snapshots.
pub struct DedupTable {
    refs: Vec<RefRow>,
}

impl View for DedupTable {
    type V = Seq<RefFact>;

    closed spec fn view(&self) -> Seq<RefFact> {
        facts(self.refs@)
    }
}

fn lower(hex: &str) -> (out: String)
    ensures
        out@ == lower_ascii(hex@),
{
    let chars = to_chars(hex);
    let mut out: Vec<char> = Vec::new();
    let mut i: usize = 0;
    while i < chars.len()
        invariant
            i <= chars@.len(),
            chars@ == hex@,
            out@.len() == i,
            forall|j: int| 0 <= j < i ==> out@[j] == lower_char(hex@[j]),
        decreases chars@.len() - i,
    {
        let c = chars[i];
        if 'A' <= c && c <= 'Z' {
            out.push((c as u8 + 32) as char);
        } else {
            out.push(c);
        }
        i += 1;
    }
    assert(out@ =~= lower_ascii(hex@));
    from_chars(out.as_slice())
}

impl DedupTable {
    /// No reference occurs twice.
    pub open spec fn wf(&self) -> bool {
        keyed(self@, ref_key())
    }

    /// A table without references.
    pub fn new() -> (out: Self)
        ensures
            out.wf(),
            out@ == Seq::<RefFact>::empty(),
    {
        let out = DedupTable { refs: Vec::new() };
        assert(out@ =~= Seq::<RefFact>::empty());
        out
    }

    fn find(&self, hash: &[u8; 32], snapshot_id: &str) -> (found: bool)
        ensures
            found == refers(self@, *hash, snapshot_id@),
    {
        let mut i: usize = 0;
        while i < self.refs.len()
            invariant
                i <= self.refs@.len(),
                forall|j: int|
                    0 <= j < i ==> ref_key()(#[trigger] self@[j]) != (*hash, snapshot_id@),
            decreases self.refs@.len() - i,
        {
            let row = &self.refs[i];
            assert(self@[i as int] == row@);
            if same_hash(&row.hash, hash) && same_text(row.snapshot.as_str(), snapshot_id) {
                assert(ref_key()(self@[i as int]) == (*hash, snapshot_id@));
                return true;
            }
            i += 1;
        }
        false
    }

    fn insert(&mut self, chunk_hash: &[u8; 32], snapshot_id: &str)
        requires
            old(self).wf(),
        ensures
            final(self).wf(),
            final(self)@ == with_reference(old(self)@, *chunk_hash, snapshot_id@),
    {
        if !self.find(chunk_hash, snapshot_id) {
            let ghost before = self@;
            let row = RefRow { hash: *chunk_hash, snapshot: copy_text(snapshot_id) };
            proof {
                facts_push(self.refs@, row);
                keyed_push(before, ref_key(), row@);
            }
            self.refs.push(row);
        }
    }

    /// Notes that a snapshot refers to a chunk, and gives the reference count of the chunk.
    /// Noting it again changes nothing.
    pub fn add_reference(&mut self, chunk_hash: &[u8; 32], snapshot_id: &str) -> (count: u64)
        requires
            old(self).wf(),
        ensures
            final(self).wf(),
            final(self)@ == with_reference(old(self)@, *chunk_hash, snapshot_id@),
            count == reference_count(final(self)@, *chunk_hash),
    {
        self.insert(chunk_hash, snapshot_id);
        self.refcount(chunk_hash)
    }

    /// Adds a reference as a database holds it. A hash of another length than a hash has is
    /// damaged, and is left out.
    pub fn load_reference(&mut self, hash: &[u8], snapshot_id: &str)
        requires
            old(self).wf(),
        ensures
            final(self).wf(),
            hash@.len() != 32 ==> final(self)@ == old(self)@,
            hash@.len() == 32 ==> exists|h: [u8; 32]|
                h@ == hash@ && final(self)@ == #[trigger] with_reference(
                    old(self)@,
                    h,
                    snapshot_id@,
                ),
    {
        if hash.len() == 32 {
            let h = hash_at(hash, 0);
            assert(h@ =~= hash@);
            self.insert(&h, snapshot_id);
        }
    }

    /// Takes a reference away, and gives the reference count that is left.
    pub fn remove_reference(&mut self, chunk_hash: &[u8; 32], snapshot_id: &str) -> (count: u64)
        requires
            old(self).wf(),
        ensures
            final(self).wf(),
            final(self)@ == kept(old(self)@, not_the_reference(*chunk_hash, snapshot_id@)),
            count == reference_count(final(self)@, *chunk_hash),
    {
        let ghost before = self@;
        let ghost cond = not_the_reference(*chunk_hash, snapshot_id@);
        let mut rest: Vec<RefRow> = Vec::new();
        let ghost mut i: int = 0;
        let ghost all = self.refs@;
        std::mem::swap(&mut rest, &mut self.refs);
        assert(facts(self.refs@) =~= kept(facts(all).take(0), cond));
        while rest.len() > 0
            invariant
                0 <= i <= all.len(),
                rest@ == all.skip(i),
                cond == not_the_reference(*chunk_hash, snapshot_id@),
                facts(self.refs@) == kept(facts(all).take(i), cond),
            decreases rest@.len(),
        {
            let row = rest.remove(0);
            proof {
                assert(row == all[i]);
                assert(rest@ =~= all.skip(i + 1));
                kept_step(facts(all), cond, i);
                facts_push(self.refs@, row);
            }
            if !(same_hash(&row.hash, chunk_hash) && same_text(
                row.snapshot.as_str(),
                snapshot_id,
            )) {
                self.refs.push(row);
            }
            proof {
                i = i + 1;
            }
        }
        proof {
            assert(facts(all).take(i) =~= facts(all));
            kept_keyed(before, cond, ref_key());
        }
        self.refcount(chunk_hash)
    }

    /// Takes all references of a snapshot away, and says how many there were.
    pub fn drop_snapshot(&mut self, snapshot_id: &str) -> (removed: u64)
        requires
            old(self).wf(),
        ensures
            final(self).wf(),
            final(self)@ == without_snapshot(old(self)@, snapshot_id@),
            removed == kept(old(self)@, of_snapshot(snapshot_id@)).len(),
    {
        let ghost before = self@;
        let ghost cond = of_other_snapshot(snapshot_id@);
        let mut rest: Vec<RefRow> = Vec::new();
        let mut removed: u64 = 0;
        let ghost mut i: int = 0;
        let ghost all = self.refs@;
        let total: usize = self.refs.len();
        std::mem::swap(&mut rest, &mut self.refs);
        assert(facts(self.refs@) =~= kept(facts(all).take(0), cond));
        assert(facts(all).take(0) =~= Seq::<RefFact>::empty());
        while rest.len() > 0
            invariant
                0 <= i <= all.len(),
                all.len() == total,
                rest@ == all.skip(i),
                cond == of_other_snapshot(snapshot_id@),
                facts(self.refs@) == kept(facts(all).take(i), cond),
                removed == kept(facts(all).take(i), of_snapshot(snapshot_id@)).len(),
                removed <= i,
            decreases rest@.len(),
        {
            let row = rest.remove(0);
            proof {
                assert(row == all[i]);
                assert(rest@ =~= all.skip(i + 1));
                kept_step(facts(all), cond, i);
                kept_step(facts(all), of_snapshot(snapshot_id@), i);
                facts_push(self.refs@, row);
            }
            if same_text(row.snapshot.as_str(), snapshot_id) {
                removed = removed + 1;
            } else {
                self.refs.push(row);
            }
            proof {
                i = i + 1;
            }
        }
        proof {
            assert(facts(all).take(i) =~= facts(all));
            kept_keyed(before, cond, ref_key());
        }
        removed
    }

    /// The reference count of a chunk.
    pub fn refcount(&self, chunk_hash: &[u8; 32]) -> (count: u64)
        ensures
            count == reference_count(self@, *chunk_hash),
    {
        let mut count: u64 = 0;
        let mut i: usize = 0;
        assert(self@.take(0) =~= Seq::<RefFact>::empty());
        while i < self.refs.len()
            invariant
                i <= self.refs@.len(),
                count <= i,
                count == kept(self@.take(i as int), of_hash(*chunk_hash)).len(),
            decreases self.refs@.len() - i,
        {
            let row = &self.refs[i];
            proof {
                assert(self@[i as int] == row@);
                kept_step(self@, of_hash(*chunk_hash), i as int);
            }
            if same_hash(&row.hash, chunk_hash) {
                count = count + 1;
            }
            i += 1;
        }
        assert(self@.take(i as int) =~= self@);
        count
    }

    fn snapshot_hashes(&self, snapshot_id: &str) -> (out: Vec<[u8; 32]>)
        ensures
            out@ == hashes(kept(self@, of_snapshot(snapshot_id@))),
    {
        let mut out: Vec<[u8; 32]> = Vec::new();
        let mut i: usize = 0;
        assert(self@.take(0) =~= Seq::<RefFact>::empty());
        assert(out@ =~= hashes(kept(self@.take(0), of_snapshot(snapshot_id@))));
        while i < self.refs.len()
            invariant
                i <= self.refs@.len(),
                out@ == hashes(kept(self@.take(i as int), of_snapshot(snapshot_id@))),
            decreases self.refs@.len() - i,
        {
            let row = &self.refs[i];
            let ghost front = kept(self@.take(i as int), of_snapshot(snapshot_id@));
            proof {
                assert(self@[i as int] == row@);
                kept_step(self@, of_snapshot(snapshot_id@), i as int);
            }
            if same_text(row.snapshot.as_str(), snapshot_id) {
                out.push(row.hash);
                assert(out@ =~= hashes(front.push(row@)));
            }
            i += 1;
        }
        assert(self@.take(i as int) =~= self@);
        out
    }

    /// Takes all references of a snapshot away, and gives the chunks that have lost their last
    /// reference by it, each once.
    pub fn remove_snapshot_references(&mut self, snapshot_id: &str) -> (freed: Vec<[u8; 32]>)
        requires
            old(self).wf(),
        ensures
            final(self).wf(),
            final(self)@ == without_snapshot(old(self)@, snapshot_id@),
            freed@.no_duplicates(),
            forall|h: [u8; 32]| #[trigger]
                freed@.contains(h) <==> orphaned(old(self)@, seq![snapshot_id@], h),
    {
        let ghost before = self@;
        let listed = self.snapshot_hashes(snapshot_id);
        let _ = self.drop_snapshot(snapshot_id);
        let ghost mine = kept(before, of_snapshot(snapshot_id@));
        let mut freed: Vec<[u8; 32]> = Vec::new();
        let mut i: usize = 0;
        proof {
            kept_keyed(before, of_snapshot(snapshot_id@), ref_key());
            assert forall|k: int| 0 <= k < mine.len() implies (#[trigger] mine[k]).snapshot
                == snapshot_id@ by {
                kept_contains(before, of_snapshot(snapshot_id@), mine[k]);
                assert(mine.contains(mine[k]));
            }
        }
        while i < listed.len()
            invariant
                i <= listed@.len(),
                listed@ == hashes(mine),
                keyed(mine, ref_key()),
                forall|k: int|
                    0 <= k < mine.len() ==> (#[trigger] mine[k]).snapshot == snapshot_id@,
                freed@.no_duplicates(),
                forall|h: [u8; 32]| #[trigger]
                    freed@.contains(h) <==> (listed@.take(i as int).contains(h) && reference_count(
                        self@,
                        h,
                    ) == 0),
            decreases listed@.len() - i,
        {
            let ghost was = freed@;
            let ghost hash = listed@[i as int];
            let ghost front = listed@.take(i as int);
            let ghost next = listed@.take(i as int + 1);
            proof {
                assert(!front.contains(hash)) by {
                    if front.contains(hash) {
                        let k = choose|k: int| 0 <= k < front.len() && front[k] == hash;
                        assert(ref_key()(mine[k]) != ref_key()(mine[i as int]));
                    }
                }
                assert forall|h: [u8; 32]| #[trigger]
                    next.contains(h) <==> (front.contains(h) || h == hash) by {
                    assert(next[i as int] == hash);
                    if front.contains(h) {
                        let k = choose|k: int| 0 <= k < front.len() && front[k] == h;
                        assert(next[k] == h);
                    }
                    if next.contains(h) {
                        let k = choose|k: int| 0 <= k < next.len() && next[k] == h;
                        if k < i {
                            assert(front[k] == h);
                        }
                    }
                }
            }
            if self.refcount(&listed[i]) == 0 {
                freed.push(listed[i]);
                proof {
                    assert(!was.contains(hash));
                    assert forall|h: [u8; 32]| #[trigger]
                        freed@.contains(h) <==> (was.contains(h) || h == hash) by {
                        assert(freed@[was.len() as int] == hash);
                        if was.contains(h) {
                            let k = choose|k: int| 0 <= k < was.len() && was[k] == h;
                            assert(freed@[k] == h);
                        }
                        if freed@.contains(h) {
                            let k = choose|k: int| 0 <= k < freed@.len() && freed@[k] == h;
                            if k < was.len() {
                                assert(was[k] == h);
                            }
                        }
                    }
                    assert forall|a: int, b: int|
                        0 <= a < freed@.len() && 0 <= b < freed@.len() && a != b implies freed@[a]
                        != freed@[b] by {
                        if a == was.len() {
                            assert(was.contains(was[b]));
                        } else if b == was.len() {
                            assert(was.contains(was[a]));
                        }
                    }
                }
            }
            i += 1;
        }
        proof {
            assert(listed@.take(i as int) =~= listed@);
            let gone = seq![snapshot_id@];
            assert(gone[0] == snapshot_id@);
            assert forall|h: [u8; 32]| #[trigger]
                freed@.contains(h) <==> orphaned(before, gone, h) by {
                counted_where_referred(self@, h);
                assert(listed@.contains(h) <==> refers(before, h, snapshot_id@)) by {
                    kept_refers(before, of_snapshot(snapshot_id@), h, snapshot_id@);
                    if listed@.contains(h) {
                        let k = choose|k: int| 0 <= k < listed@.len() && listed@[k] == h;
                        assert(ref_key()(mine[k]) == (h, snapshot_id@));
                    }
                    if refers(mine, h, snapshot_id@) {
                        let k = choose|k: int|
                            0 <= k < mine.len() && ref_key()(#[trigger] mine[k]) == (
                                h,
                                snapshot_id@,
                            );
                        assert(listed@[k] == h);
                    }
                }
                assert forall|s: Seq<char>| #[trigger]
                    refers(self@, h, s) <==> (refers(before, h, s) && s != snapshot_id@) by {
                    kept_refers(before, of_other_snapshot(snapshot_id@), h, s);
                }
                if freed@.contains(h) {
                    assert forall|s: Seq<char>| #[trigger] refers(before, h, s) implies gone.contains(
                        s,
                    ) by {
                        if s != snapshot_id@ {
                            assert(refers(self@, h, s));
                        }
                    }
                }
                if orphaned(before, gone, h) {
                    let s = choose|s: Seq<char>| #[trigger]
                        refers(before, h, s) && gone.contains(s);
                    assert(s == snapshot_id@);
                    if reference_count(self@, h) > 0 {
                        let t = choose|t: Seq<char>| #[trigger] refers(self@, h, t);
                        assert(refers(before, h, t));
                    }
                }
            }
        }
        freed
    }

    /// Takes all references of several snapshots away, and gives the chunks that have lost their
    /// last reference by it, each once.
    pub fn remove_snapshots_references(&mut self, gone: &Vec<String>) -> (freed: Vec<[u8; 32]>)
        requires
            old(self).wf(),
        ensures
            final(self).wf(),
            final(self)@ == without_snapshots(old(self)@, texts(gone@)),
            freed@.no_duplicates(),
            forall|h: [u8; 32]| #[trigger]
                freed@.contains(h) <==> orphaned(old(self)@, texts(gone@), h),
    {
        let ghost before = self@;
        let mut freed: Vec<[u8; 32]> = Vec::new();
        let mut i: usize = 0;
        assert(texts(gone@).take(0) =~= Seq::<Seq<char>>::empty());
        while i < gone.len()
            invariant
                self.wf(),
                i <= gone@.len(),
                self@ == without_snapshots(before, texts(gone@).take(i as int)),
                freed@.no_duplicates(),
                forall|h: [u8; 32]| #[trigger]
                    freed@.contains(h) <==> orphaned(before, texts(gone@).take(i as int), h),
            decreases gone@.len() - i,
        {
            let ghost here = self@;
            let ghost was = freed@;
            let ghost front = texts(gone@).take(i as int);
            let ghost next = texts(gone@).take(i as int + 1);
            let ghost id = texts(gone@)[i as int];
            let more = self.remove_snapshot_references(gone[i].as_str());
            proof {
                assert(next.drop_last() =~= front);
                assert(next.last() == id);
                assert forall|h: [u8; 32]| was.contains(h) implies !more@.contains(h) by {
                    if more@.contains(h) {
                        let s = choose|s: Seq<char>| #[trigger]
                            refers(here, h, s) && seq![id].contains(s);
                        without_snapshots_refers(before, front, h, s);
                    }
                }
            }
            let mut j: usize = 0;
            assert(more@.take(0) =~= Seq::<[u8; 32]>::empty());
            assert(freed@ =~= was + more@.take(0));
            while j < more.len()
                invariant
                    j <= more@.len(),
                    freed@ == was + more@.take(j as int),
                decreases more@.len() - j,
            {
                freed.push(more[j]);
                j += 1;
                assert(freed@ =~= was + more@.take(j as int));
            }
            proof {
                assert(more@.take(j as int) =~= more@);
                assert(freed@.no_duplicates()) by {
                    assert forall|a: int, b: int|
                        0 <= a < freed@.len() && 0 <= b < freed@.len() && a != b implies freed@[a]
                        != freed@[b] by {
                        if a < was.len() && b >= was.len() {
                            assert(was.contains(was[a]));
                            assert(more@.contains(more@[b - was.len()]));
                        } else if b < was.len() && a >= was.len() {
                            assert(was.contains(was[b]));
                            assert(more@.contains(more@[a - was.len()]));
                        }
                    }
                }
                assert forall|h: [u8; 32]| #[trigger]
                    freed@.contains(h) <==> orphaned(before, next, h) by {
                    assert(freed@.contains(h) <==> (was.contains(h) || more@.contains(h))) by {
                        if was.contains(h) {
                            let k = choose|k: int| 0 <= k < was.len() && was[k] == h;
                            assert(freed@[k] == h);
                        }
                        if more@.contains(h) {
                            let k = choose|k: int| 0 <= k < more@.len() && more@[k] == h;
                            assert(freed@[was.len() + k] == h);
                        }
                        if freed@.contains(h) {
                            let k = choose|k: int| 0 <= k < freed@.len() && freed@[k] == h;
                            if k < was.len() {
                                assert(was[k] == h);
                            } else {
                                assert(more@[k - was.len()] == h);
                            }
                        }
                    }
                    Self::orphans_step(before, front, id, h);
                    assert(next =~= front.push(id));
                }
            }
            i += 1;
        }
        assert(texts(gone@).take(i as int) =~= texts(gone@));
        freed
    }

    proof fn orphans_step(
        refs: Seq<RefFact>,
        front: Seq<Seq<char>>,
        id: Seq<char>,
        hash: [u8; 32],
    )
        ensures
            orphaned(refs, front.push(id), hash) <==> (orphaned(refs, front, hash) || orphaned(
                without_snapshots(refs, front),
                seq![id],
                hash,
            )),
    {
        let here = without_snapshots(refs, front);
        let next = front.push(id);
        let one = seq![id];
        assert(one[0] == id);
        assert forall|s: Seq<char>| #[trigger]
            next.contains(s) <==> (front.contains(s) || s == id) by {
            assert(next[front.len() as int] == id);
            if front.contains(s) {
                let k = choose|k: int| 0 <= k < front.len() && front[k] == s;
                assert(next[k] == s);
            }
            if next.contains(s) {
                let k = choose|k: int| 0 <= k < next.len() && next[k] == s;
                if k < front.len() {
                    assert(front[k] == s);
                }
            }
        }
        assert forall|s: Seq<char>| #[trigger]
            refers(here, hash, s) <==> (refers(refs, hash, s) && !front.contains(s)) by {
            without_snapshots_refers(refs, front, hash, s);
        }
        assert forall|s: Seq<char>| #[trigger] one.contains(s) <==> s == id by {}
        if orphaned(refs, front, hash) {
            let s = choose|s: Seq<char>| #[trigger] refers(refs, hash, s) && front.contains(s);
            assert(next.contains(s));
        }
        if orphaned(here, one, hash) {
            let s = choose|s: Seq<char>| #[trigger] refers(here, hash, s) && one.contains(s);
            assert(refers(refs, hash, s) && next.contains(s));
            assert forall|t: Seq<char>| #[trigger] refers(refs, hash, t) implies next.contains(
                t,
            ) by {
                if !front.contains(t) {
                    assert(refers(here, hash, t));
                }
            }
        }
        if orphaned(refs, next, hash) && !orphaned(refs, front, hash) {
            if refers(refs, hash, id) && !front.contains(id) {
                assert(refers(here, hash, id));
                assert(one.contains(id));
                assert forall|t: Seq<char>| #[trigger] refers(here, hash, t) implies one.contains(
                    t,
                ) by {
                    assert(next.contains(t));
                }
            } else {
                let s = choose|s: Seq<char>| #[trigger] refers(refs, hash, s) && next.contains(s);
                assert(front.contains(s));
                assert forall|t: Seq<char>| #[trigger] refers(refs, hash, t) implies front.contains(
                    t,
                ) by {
                    assert(next.contains(t));
                }
            }
        }
    }

    /// The chunks that would lose their last reference if the given snapshots went, each once.
    pub fn would_be_freed(&self, gone: &Vec<String>) -> (freed: Vec<[u8; 32]>)
        requires
            self.wf(),
        ensures
            freed@.no_duplicates(),
            forall|h: [u8; 32]| #[trigger]
                freed@.contains(h) <==> orphaned(self@, texts(gone@), h),
    {
        let mut copy = DedupTable { refs: Vec::new() };
        let mut i: usize = 0;
        assert(copy@ =~= self@.take(0));
        while i < self.refs.len()
            invariant
                i <= self.refs@.len(),
                copy@ == self@.take(i as int),
            decreases self.refs@.len() - i,
        {
            let row = RefRow {
                hash: self.refs[i].hash,
                snapshot: copy_text(self.refs[i].snapshot.as_str()),
            };
            proof {
                facts_push(copy.refs@, row);
                assert(self@[i as int] == row@);
                assert(self@.take(i as int + 1) =~= self@.take(i as int).push(row@));
            }
            copy.refs.push(row);
            i += 1;
        }
        assert(copy@ =~= self@);
        copy.remove_snapshots_references(gone)
    }

    /// The chunks of a snapshot in hexadecimal.
    pub fn chunks_for_snapshot(&self, snapshot_id: &str) -> (out: Vec<String>)
        ensures
            texts(out@) == hex_hashes(kept(self@, of_snapshot(snapshot_id@))),
    {
        let listed = self.snapshot_hashes(snapshot_id);
        let mut out: Vec<String> = Vec::new();
        let mut i: usize = 0;
        while i < listed.len()
            invariant
                i <= listed@.len(),
                out@.len() == i,
                forall|j: int| 0 <= j < i ==> (#[trigger] out@[j])@ == hex_text(listed@[j]@),
            decreases listed@.len() - i,
        {
            out.push(to_hex(listed[i].as_slice()));
            i += 1;
        }
        assert(texts(out@) =~= hex_hashes(kept(self@, of_snapshot(snapshot_id@))));
        out
    }

    fn known_hex(&self, hex: &str) -> (yes: bool)
        ensures
            yes == refers_to_hex(self@, hex@),
    {
        let low = lower(hex);
        let mut i: usize = 0;
        while i < self.refs.len()
            invariant
                i <= self.refs@.len(),
                low@ == lower_ascii(hex@),
                forall|j: int| 0 <= j < i ==> hex_text((#[trigger] self@[j]).hash@) != low@,
            decreases self.refs@.len() - i,
        {
            assert(self@[i as int] == self.refs@[i as int]@);
            if same_text(to_hex(self.refs[i].hash.as_slice()).as_str(), low.as_str()) {
                return true;
            }
            i += 1;
        }
        false
    }

    /// The chunks of the catalog that no snapshot refers to, in hexadecimal.
    pub fn unreferenced_chunks_hex(&self, catalog: &CatalogIndex) -> (out: Vec<String>)
        ensures
            texts(out@) == kept(chunk_hashes(catalog@), unreferenced_hex(self@)),
    {
        let all = catalog.list_all_chunk_hashes();
        let ghost listed = chunk_hashes(catalog@);
        let mut out: Vec<String> = Vec::new();
        let mut i: usize = 0;
        assert(listed.take(0) =~= Seq::<Seq<char>>::empty());
        assert(texts(out@) =~= kept(listed.take(0), unreferenced_hex(self@)));
        while i < all.len()
            invariant
                i <= all@.len(),
                texts(all@) == listed,
                texts(out@) == kept(listed.take(i as int), unreferenced_hex(self@)),
            decreases all@.len() - i,
        {
            proof {
                assert(listed[i as int] == texts(all@)[i as int]);
                kept_step(listed, unreferenced_hex(self@), i as int);
            }
            if !self.known_hex(all[i].as_str()) {
                let copy = copy_text(all[i].as_str());
                proof {
                    texts_push(out@, copy);
                }
                out.push(copy);
            }
            i += 1;
        }
        assert(listed.take(i as int) =~= listed);
        out
    }

    /// The chunks of the catalog that no snapshot refers to. Entries of the catalog that are no
    /// hash in hexadecimal are passed over.
    pub fn unreferenced_chunks(&self, catalog: &CatalogIndex) -> (out: Vec<[u8; 32]>)
        ensures
            hash_views(out@) == parsed_hashes(
                kept(chunk_hashes(catalog@), unreferenced_hex(self@)),
            ),
    {
        let listed = self.unreferenced_chunks_hex(catalog);
        let ghost names = texts(listed@);
        let mut out: Vec<[u8; 32]> = Vec::new();
        let mut i: usize = 0;
        assert(names.take(0) =~= Seq::<Seq<char>>::empty());
        assert(hash_views(out@) =~= parsed_hashes(names.take(0)));
        while i < listed.len()
            invariant
                i <= listed@.len(),
                names == texts(listed@),
                hash_views(out@) == parsed_hashes(names.take(i as int)),
            decreases listed@.len() - i,
        {
            let chars = to_chars(listed[i].as_str());
            let ghost was = out@;
            proof {
                let next = names.take(i as int + 1);
                assert(next.drop_last() =~= names.take(i as int));
                assert(next.last() == chars@);
            }
            match hash_of_hex(chars.as_slice()) {
                Some(h) => {
                    out.push(h);
                    assert(hash_views(out@) =~= hash_views(was).push(h@));
                },
                None => {},
            }
            i += 1;
        }
        assert(names.take(i as int) =~= names);
        out
    }

    /// Figures about the table.
    pub fn stats(&self) -> (out: DedupStats)
        ensures
            out.total_references == self@.len(),
            out.referenced_chunks == hashes(self@).to_set().len(),
            out.referencing_snapshots == snapshots(self@).to_set().len(),
    {
        let mut seen_hashes: Vec<[u8; 32]> = Vec::new();
        let mut seen_snapshots: Vec<String> = Vec::new();
        let mut i: usize = 0;
        assert(hashes(self@.take(0)).to_set() =~= Set::<[u8; 32]>::empty());
        assert(snapshots(self@.take(0)).to_set() =~= Set::<Seq<char>>::empty());
        assert(seen_hashes@.to_set() =~= Set::<[u8; 32]>::empty());
        assert(texts(seen_snapshots@).to_set() =~= Set::<Seq<char>>::empty());
        while i < self.refs.len()
            invariant
                i <= self.refs@.len(),
                seen_hashes@.no_duplicates(),
                texts(seen_snapshots@).no_duplicates(),
                seen_hashes@.to_set() == hashes(self@.take(i as int)).to_set(),
                texts(seen_snapshots@).to_set() == snapshots(self@.take(i as int)).to_set(),
            decreases self.refs@.len() - i,
        {
            let row = &self.refs[i];
            let ghost was_hashes = seen_hashes@;
            let ghost was_snapshots = texts(seen_snapshots@);
            proof {
                assert(self@[i as int] == row@);
                let front = self@.take(i as int);
                let next = self@.take(i as int + 1);
                assert(hashes(next) =~= hashes(front).push(row.hash));
                assert(snapshots(next) =~= snapshots(front).push(row.snapshot@));
                set_push(hashes(front), row.hash);
                set_push(snapshots(front), row.snapshot@);
            }
            let mut known: bool = false;
            let mut j: usize = 0;
            while j < seen_hashes.len() && !known
                invariant
                    j <= seen_hashes@.len(),
                    known ==> seen_hashes@.contains(row.hash),
                    !known ==> forall|k: int| 0 <= k < j ==> seen_hashes@[k] != row.hash,
                decreases seen_hashes@.len() - j + if known { 0int } else { 1int },
            {
                if same_hash(&seen_hashes[j], &row.hash) {
                    known = true;
                    assert(seen_hashes@[j as int] == row.hash);
                } else {
                    j += 1;
                }
            }
            if !known {
                seen_hashes.push(row.hash);
                proof {
                    set_push(was_hashes, row.hash);
                    no_duplicates_push(was_hashes, row.hash);
                }
            } else {
                proof {
                    set_has(was_hashes, row.hash);
                }
            }
            if !holds_text(&seen_snapshots, row.snapshot.as_str()) {
                let copy = copy_text(row.snapshot.as_str());
                proof {
                    texts_push(seen_snapshots@, copy);
                    set_push(was_snapshots, row.snapshot@);
                    no_duplicates_push(was_snapshots, row.snapshot@);
                }
                seen_snapshots.push(copy);
            } else {
                proof {
                    set_has(was_snapshots, row.snapshot@);
                }
            }
            i += 1;
        }
        proof {
            assert(self@.take(i as int) =~= self@);
            seen_hashes@.unique_seq_to_set();
            texts(seen_snapshots@).unique_seq_to_set();
        }
        DedupStats {
            referenced_chunks: seen_hashes.len() as u64,
            total_references: self.refs.len() as u64,
            referencing_snapshots: seen_snapshots.len() as u64,
        }
    }

    /// Notes references of a snapshot to all chunks of a list.
    pub fn add_references_batch(&mut self, snapshot_id: &str, chunks: &[[u8; 32]])
        requires
            old(self).wf(),
        ensures
            final(self).wf(),
            final(self)@ == with_references(old(self)@, snapshot_id@, chunks@),
            forall|k: int|
                0 <= k < chunks@.len() ==> refers(
                    final(self)@,
                    #[trigger] chunks@[k],
                    snapshot_id@,
                ),
    {
        let ghost before = self@;
        let mut i: usize = 0;
        assert(chunks@.take(0) =~= Seq::<[u8; 32]>::empty());
        while i < chunks.len()
            invariant
                self.wf(),
                i <= chunks@.len(),
                self@ == with_references(before, snapshot_id@, chunks@.take(i as int)),
                forall|k: int|
                    0 <= k < i ==> refers(self@, #[trigger] chunks@[k], snapshot_id@),
            decreases chunks@.len() - i,
        {
            let ghost here = self@;
            self.insert(&chunks[i], snapshot_id);
            proof {
                let next = chunks@.take(i as int + 1);
                assert(next.drop_last() =~= chunks@.take(i as int));
                assert(next.last() == chunks@[i as int]);
                let row = RefFact { hash: chunks@[i as int], snapshot: snapshot_id@ };
                assert forall|k: int| 0 <= k < i + 1 implies refers(
                    self@,
                    #[trigger] chunks@[k],
                    snapshot_id@,
                ) by {
                    has_key_push(here, ref_key(), row, (chunks@[k], snapshot_id@));
                }
            }
            i += 1;
        }
        assert(chunks@.take(i as int) =~= chunks@);
    }
}

/// The snapshots of a list of references.
pub open spec fn snapshots(refs: Seq<RefFact>) -> Seq<Seq<char>> {
    Seq::new(refs.len(), |i: int| refs[i].snapshot)
}

proof fn set_push<A>(s: Seq<A>, x: A)
    ensures
        s.push(x).to_set() == s.to_set().insert(x),
{
    assert forall|y: A| s.push(x).to_set().contains(y) <==> s.to_set().insert(x).contains(y) by {
        assert(s.push(x)[s.len() as int] == x);
        if s.contains(y) {
            let k = choose|k: int| 0 <= k < s.len() && s[k] == y;
            assert(s.push(x)[k] == y);
        }
        if s.push(x).contains(y) {
            let k = choose|k: int| 0 <= k < s.len() + 1 && s.push(x)[k] == y;
            if k < s.len() {
                assert(s[k] == y);
            }
        }
    }
    assert(s.push(x).to_set() =~= s.to_set().insert(x));
}

proof fn set_has<A>(s: Seq<A>, x: A)
    requires
        s.contains(x),
    ensures
        s.to_set().insert(x) == s.to_set(),
{
    assert(s.to_set().insert(x) =~= s.to_set());
}

proof fn no_duplicates_push<A>(s: Seq<A>, x: A)
    requires
        s.no_duplicates(),
        !s.contains(x),
    ensures
        s.push(x).no_duplicates(),
{
    let t = s.push(x);
    assert forall|a: int, b: int| 0 <= a < t.len() && 0 <= b < t.len() && a != b implies t[a]
        != t[b] by {
        if a == s.len() {
            assert(s.contains(s[b]));
        } else if b == s.len() {
            assert(s.contains(s[a]));
        }
    }
}

/// A reference is one row with that hash and that snapshot.
pub proof fn references_are_rows(refs: Seq<RefFact>, hash: [u8; 32], snapshot: Seq<char>)
    ensures
        refers(refs, hash, snapshot) <==> exists|i: int|
            0 <= i < refs.len() && (#[trigger] refs[i]).hash == hash && refs[i].snapshot
                == snapshot,
{
    if exists|i: int|
        0 <= i < refs.len() && (#[trigger] refs[i]).hash == hash && refs[i].snapshot == snapshot {
        let i = choose|i: int|
            0 <= i < refs.len() && (#[trigger] refs[i]).hash == hash && refs[i].snapshot
                == snapshot;
        assert(ref_key()(refs[i]) == (hash, snapshot));
    }
}

/// Adding a reference adds that one and leaves the others as they are; adding it again changes
/// nothing.
pub proof fn references_are_added_once(
    refs: Seq<RefFact>,
    hash: [u8; 32],
    snapshot: Seq<char>,
    h: [u8; 32],
    s: Seq<char>,
)
    ensures
        refers(with_reference(refs, hash, snapshot), h, s) <==> refers(refs, h, s) || (h == hash
            && s == snapshot),
        with_reference(with_reference(refs, hash, snapshot), hash, snapshot) == with_reference(
            refs,
            hash,
            snapshot,
        ),
{
    let after = with_reference(refs, hash, snapshot);
    references_are_rows(refs, h, s);
    references_are_rows(after, h, s);
    references_are_rows(refs, hash, snapshot);
    references_are_rows(after, hash, snapshot);
    if !refers(refs, hash, snapshot) {
        assert(after[refs.len() as int] == RefFact { hash, snapshot });
        if refers(refs, h, s) {
            let i = choose|i: int|
                0 <= i < refs.len() && (#[trigger] refs[i]).hash == h && refs[i].snapshot == s;
            assert(after[i] == refs[i]);
        }
        if refers(after, h, s) {
            let i = choose|i: int|
                0 <= i < after.len() && (#[trigger] after[i]).hash == h && after[i].snapshot == s;
            if i < refs.len() {
                assert(refs[i] == after[i]);
            }
        }
    }
}

/// Removing a snapshot takes all its references and none of another.
pub proof fn only_its_references_go(
    refs: Seq<RefFact>,
    snapshot: Seq<char>,
    hash: [u8; 32],
    s: Seq<char>,
)
    ensures
        refers(without_snapshot(refs, snapshot), hash, s) <==> refers(refs, hash, s) && s
            != snapshot,
{
    let row = RefFact { hash, snapshot: s };
    kept_contains(refs, of_other_snapshot(snapshot), row);
    references_are_rows(refs, hash, s);
    references_are_rows(without_snapshot(refs, snapshot), hash, s);
    let after = without_snapshot(refs, snapshot);
    if refers(refs, hash, s) {
        let i = choose|i: int|
            0 <= i < refs.len() && (#[trigger] refs[i]).hash == hash && refs[i].snapshot == s;
        assert(refs[i] == row);
        assert(refs.contains(row));
    }
    if refers(after, hash, s) {
        let i = choose|i: int|
            0 <= i < after.len() && (#[trigger] after[i]).hash == hash && after[i].snapshot == s;
        assert(after[i] == row);
        assert(after.contains(row));
        let j = choose|j: int| 0 <= j < refs.len() && refs[j] == row;
        assert(refs[j].hash == hash);
    }
    if after.contains(row) {
        let i = choose|i: int| 0 <= i < after.len() && after[i] == row;
        assert(after[i].hash == hash);
    }
}

/// A chunk is freed by the removal of snapshots exactly where one of them refers to it and no
/// other snapshot does.
pub proof fn freed_where_no_other_refers(
    refs: Seq<RefFact>,
    gone: Seq<Seq<char>>,
    hash: [u8; 32],
)
    ensures
        orphaned(refs, gone, hash) <==> {
            &&& exists|i: int|
                0 <= i < refs.len() && (#[trigger] refs[i]).hash == hash
            &&& forall|i: int|
                0 <= i < refs.len() && (#[trigger] refs[i]).hash == hash ==> gone.contains(
                    refs[i].snapshot,
                )
        },
{
    if orphaned(refs, gone, hash) {
        let s = choose|s: Seq<char>| #[trigger] refers(refs, hash, s) && gone.contains(s);
        references_are_rows(refs, hash, s);
        assert forall|i: int|
            0 <= i < refs.len() && (#[trigger] refs[i]).hash == hash implies gone.contains(
            refs[i].snapshot,
        ) by {
            references_are_rows(refs, hash, refs[i].snapshot);
        }
    }
    if (exists|i: int| 0 <= i < refs.len() && (#[trigger] refs[i]).hash == hash) && (forall|i: int|
        0 <= i < refs.len() && (#[trigger] refs[i]).hash == hash ==> gone.contains(
            refs[i].snapshot,
        )) {
        let i = choose|i: int| 0 <= i < refs.len() && (#[trigger] refs[i]).hash == hash;
        references_are_rows(refs, hash, refs[i].snapshot);
        assert forall|s: Seq<char>| #[trigger] refers(refs, hash, s) implies gone.contains(s) by {
            references_are_rows(refs, hash, s);
        }
    }
}

/// References are added for each of the chunks, and for no other.
pub proof fn each_chunk_is_referred_to(
    refs: Seq<RefFact>,
    snapshot: Seq<char>,
    chunks: Seq<[u8; 32]>,
    h: [u8; 32],
    s: Seq<char>,
)
    ensures
        refers(with_references(refs, snapshot, chunks), h, s) <==> refers(refs, h, s) || (s
            == snapshot && chunks.contains(h)),
    decreases chunks.len(),
{
    if chunks.len() > 0 {
        let front = chunks.drop_last();
        each_chunk_is_referred_to(refs, snapshot, front, h, s);
        references_are_added_once(
            with_references(refs, snapshot, front),
            chunks.last(),
            snapshot,
            h,
            s,
        );
        assert(chunks[chunks.len() - 1] == chunks.last());
        if front.contains(h) {
            let i = choose|i: int| 0 <= i < front.len() && front[i] == h;
            assert(chunks[i] == h);
        }
        if chunks.contains(h) && h != chunks.last() {
            let i = choose|i: int| 0 <= i < chunks.len() && chunks[i] == h;
            assert(front[i] == h);
        }
    }
}

/// A chunk in hexadecimal digits is free where no snapshot refers to its hash.
pub proof fn unreferenced_chunks_are_free(refs: Seq<RefFact>, hash: [u8; 32])
    ensures
        unreferenced_hex(refs)(hex_text(hash@)) <==> forall|i: int|
            0 <= i < refs.len() ==> (#[trigger] refs[i]).hash@ != hash@,
{
    let hex = hex_text(hash@);
    hex_text_digits(hash@);
    assert(lower_ascii(hex) =~= hex) by {
        assert forall|i: int| 0 <= i < hex.len() implies lower_char(#[trigger] hex[i]) == hex[i] by {
            let k = i / 2;
            let b = hash@[k] as int;
            assert(i == 2 * k || i == 2 * k + 1);
            assert(hex[i] == hex_digit(b / 16) || hex[i] == hex_digit(b % 16));
        }
    }
    if refers_to_hex(refs, hex) {
        let i = choose|i: int|
            0 <= i < refs.len() && hex_text((#[trigger] refs[i]).hash@) == lower_ascii(hex);
        hex_text_injective(refs[i].hash@, hash@);
    }
}

/// How many snapshots refer to a chunk is how many rows have its hash; a reference more counts
/// once.
pub proof fn references_are_counted(refs: Seq<RefFact>, row: RefFact, hash: [u8; 32])
    ensures
        reference_count(Seq::empty(), hash) == 0,
        row.hash == hash ==> reference_count(refs.push(row), hash) == reference_count(refs, hash)
            + 1,
        row.hash != hash ==> reference_count(refs.push(row), hash) == reference_count(refs, hash),
{
    assert(refs.push(row).drop_last() =~= refs);
}

/// Dropping one reference takes that one and no other.
pub proof fn one_reference_goes(
    refs: Seq<RefFact>,
    hash: [u8; 32],
    snapshot: Seq<char>,
    row: RefFact,
)
    ensures
        kept(refs, not_the_reference(hash, snapshot)).contains(row) <==> refs.contains(row) && (
        row.hash != hash || row.snapshot != snapshot),
{
    kept_contains(refs, not_the_reference(hash, snapshot), row);
}

/// The chunks of a snapshot are the rows that name it.
pub proof fn snapshots_have_their_rows(refs: Seq<RefFact>, snapshot: Seq<char>, row: RefFact)
    ensures
        kept(refs, of_snapshot(snapshot)).contains(row) <==> refs.contains(row) && row.snapshot
            == snapshot,
        kept(refs, of_hash(row.hash)).contains(row) <==> refs.contains(row),
{
    kept_contains(refs, of_snapshot(snapshot), row);
    kept_contains(refs, of_hash(row.hash), row);
}

/// A hash is the same in upper-case digits and in lower-case ones, and a text without upper-case
/// letters stands for itself.
pub proof fn upper_case_digits_are_the_same(refs: Seq<RefFact>, upper: Seq<char>, lower: Seq<char>)
    requires
        upper.len() == lower.len(),
        forall|i: int|
            0 <= i < upper.len() ==> !(65 <= (#[trigger] lower[i]) as int <= 90) && if 65
                <= upper[i] as int <= 90 {
                lower[i] as int == upper[i] as int + 32
            } else {
                lower[i] == upper[i]
            },
    ensures
        lower_ascii(upper) == lower,
        lower_ascii(lower) == lower,
        refers_to_hex(refs, upper) == refers_to_hex(refs, lower),
        refers_to_hex(refs, lower) <==> exists|i: int|
            0 <= i < refs.len() && hex_text((#[trigger] refs[i]).hash@) == lower,
{
    assert(lower_ascii(upper) =~= lower);
    assert(lower_ascii(lower) =~= lower);
}

} // verus!
