//! The bookkeeping around a snapshot: references, summary, log.
use crate::bytes::hex_text;
use crate::bytes::to_hex;
use crate::catalog::history::clean;
use crate::catalog::history::entry_mac;
use crate::catalog::history::signature_before;
use crate::catalog::history::History;
use crate::catalog::history::HistoryEntry;
use crate::catalog::history::Operation;
use crate::catalog::index::chunk_hashes;
use crate::catalog::index::snapshot_list;
use crate::catalog::index::CatalogIndex;
use crate::catalog::index::CatalogState;
use crate::catalog::metadata::summary_of;
use crate::catalog::metadata::MetadataStore;
use crate::catalog::metadata::SnapshotMetadata;
use crate::catalog::removal;
use crate::catalog::rows::facts;
use crate::catalog::rows::kept;
use crate::encryption::aes::StreamingEncryptor;
use crate::error::LazarusError;
use crate::integrity::merkle::merkle_root;
use crate::integrity::merkle::root_of;
use crate::integrity::merkle::Node;
use crate::primitives::clock_shows;
use crate::primitives::json_quoted;
use crate::primitives::quote_json;
use crate::primitives::PLAINTEXT_MAX;
use crate::snapshot::block_tracker::BlockTracker;
use crate::snapshot::block_tracker::FileFact;
use crate::snapshot::dedup::unreferenced_hex;
use crate::snapshot::dedup::with_references;
use crate::snapshot::dedup::without_snapshot;
use crate::snapshot::dedup::DedupTable;
use crate::snapshot::dedup::RefFact;
use crate::storage::backend::RetentionLock;
use crate::text::copy_text;
use crate::text::decimal;
use crate::text::decimal_string;
use crate::text::texts;
use vstd::prelude::*;

verus! {

/// The name of a snapshot.
#[derive(Debug, PartialEq, Eq, Hash)]
pub struct SnapshotId(pub String);

impl Clone for SnapshotId {
    fn clone(&self) -> (out: Self)
        ensures
            out.0@ == self.0@,
    {
        SnapshotId(copy_text(self.0.as_str()))
    }
}

impl SnapshotId {
    pub fn from_str(s: &str) -> (out: Self)
        ensures
            out.0@ == s@,
    {
        SnapshotId(copy_text(s))
    }

    pub fn as_str(&self) -> (out: &str)
        ensures
            out@ == self.0@,
    {
        self.0.as_str()
    }
}

/// What to note of a new snapshot.
#[derive(Debug)]
pub struct SnapshotOpts {
    pub metadata: SnapshotMetadata,
    /// The lock for the chunks that the snapshot writes.
    pub retention: Option<RetentionLock>,
}

/// Options of a restore; there are none yet.
#[derive(Debug, Clone, Copy, PartialEq, Eq, Structural)]
pub struct RestoreOpts {}

/// How deep a verification looks.
#[derive(Debug, Clone, Copy, PartialEq, Eq, Structural)]
pub enum VerifyMode {
    /// Only the catalog.
    Catalog,
    /// Every chunk is read and hashed.
    Chunks,
    /// Every chunk is read and checked against the root of the hash tree.
    Merkle,
}

/// What a verification found.
#[derive(Debug)]
pub struct VerifyReport {
    pub snapshot_id: String,
    pub chunks_checked: usize,
    pub corrupted_chunks: Vec<String>,
    pub missing_chunks: Vec<String>,
    pub merkle_ok: Option<bool>,
}

/// Which snapshots a prune keeps.
#[derive(Debug, Clone, Copy, PartialEq, Eq, Structural)]
pub struct RetentionPolicy {
    pub keep_last: usize,
    pub keep_days: u64,
}

impl Default for RetentionPolicy {
    fn default() -> (out: Self)
        ensures
            out == (RetentionPolicy { keep_last: 5, keep_days: 30 }),
    {
        RetentionPolicy { keep_last: 5, keep_days: 30 }
    }
}

/// What a prune did.
#[derive(Debug)]
pub struct PruneReport {
    pub removed_snapshots: Vec<String>,
    pub removed_chunks: Vec<String>,
    pub kept_snapshots: usize,
}

/// A snapshot with its serialized summary.
#[derive(Debug)]
pub struct SnapshotSummary {
    pub id: String,
    pub timestamp: u64,
    pub metadata: Option<Vec<u8>>,
}

/// Bytes in hexadecimal.
pub fn encode_slice(bytes: &[u8]) -> (out: String)
    ensures
        out@ == hex_text(bytes@),
{
    to_hex(bytes)
}

/// The details that the log gets for a new snapshot.
pub open spec fn backup_details(id: Seq<char>, chunk_count: nat, root: Option<Node>) -> Seq<char> {
    "{\"chunk_count\":"@ + decimal(chunk_count) + ",\"merkle_root\":"@ + match root {
        Some(r) => json_quoted(hex_text(r@)),
        None => "null"@,
    } + ",\"snapshot_id\":"@ + json_quoted(id) + "}"@
}

/// The details that the log gets for a removed snapshot.
pub open spec fn prune_details(id: Seq<char>) -> Seq<char> {
    "{\"snapshot_id\":"@ + json_quoted(id) + "}"@
}

/// Whether `after` is the log `before` with one more entry that is signed and linked.
pub open spec fn logged(
    before: Seq<HistoryEntry>,
    after: Seq<HistoryEntry>,
    key: Seq<u8>,
    operation: Operation,
    actor: Seq<char>,
    details: Seq<char>,
) -> bool {
    &&& after.len() == before.len() + 1
    &&& after.drop_last() == before
    &&& after.last().operation == operation
    &&& after.last().actor@ == actor
    &&& after.last().details@ == details
    &&& after.last().prev_signature@ == signature_before(before, before.len() as int)
    &&& after.last().signature@ == entry_mac(after.last(), key)
    &&& clean(before, key) ==> clean(after, key)
}

/// The summary of a snapshot in a list; one that cannot be read counts as none.
pub open spec fn readable_summary(
    entries: Map<Seq<char>, (Seq<u8>, Seq<u8>)>,
    key: Seq<u8>,
    id: Seq<char>,
) -> Option<Seq<u8>> {
    match summary_of(entries, key, id) {
        Ok(Some(p)) => Some(p),
        _ => None,
    }
}

/// Everything that is noted of the snapshots of a repository.
pub struct SnapshotManager {
    catalog: CatalogIndex,
    encryptor: StreamingEncryptor,
    dedup: DedupTable,
    block_tracker: BlockTracker,
    metadata_store: MetadataStore,
    history: History,
    repo_path: String,
    actor: String,
}

impl SnapshotManager {
    pub closed spec fn wf(&self) -> bool {
        &&& self.catalog.wf()
        &&& self.dedup.wf()
        &&& self.block_tracker.wf()
        &&& self.metadata_store.wf()
    }

    pub closed spec fn tables(&self) -> CatalogState {
        self.catalog@
    }

    pub closed spec fn references(&self) -> Seq<RefFact> {
        self.dedup@
    }

    pub closed spec fn file_states(&self) -> Seq<FileFact> {
        self.block_tracker@
    }

    pub closed spec fn summaries(&self) -> Map<Seq<char>, (Seq<u8>, Seq<u8>)> {
        self.metadata_store@
    }

    pub closed spec fn summary_key(&self) -> Seq<u8> {
        self.metadata_store.key()
    }

    pub closed spec fn log(&self) -> Seq<HistoryEntry> {
        self.history@
    }

    pub closed spec fn log_key(&self) -> Seq<u8> {
        self.history.key()
    }

    pub closed spec fn chunk_key(&self) -> Seq<u8> {
        self.encryptor.key()
    }

    pub closed spec fn chunk_epoch(&self) -> u32 {
        self.encryptor.key_epoch()
    }

    pub closed spec fn root(&self) -> Seq<char> {
        self.repo_path@
    }

    pub closed spec fn actor_name(&self) -> Seq<char> {
        self.actor@
    }

    /// Whether everything but the actor and the epoch is the same.
    pub open spec fn same_records(&self, other: &SnapshotManager) -> bool {
        &&& self.tables() == other.tables()
        &&& self.references() == other.references()
        &&& self.file_states() == other.file_states()
        &&& self.summaries() == other.summaries()
        &&& self.log() == other.log()
        &&& self.same_setup(other)
    }

    /// Whether the keys and the place are the same.
    pub open spec fn same_setup(&self, other: &SnapshotManager) -> bool {
        &&& self.summary_key() == other.summary_key()
        &&& self.log_key() == other.log_key()
        &&& self.chunk_key() == other.chunk_key()
        &&& self.root() == other.root()
    }

    /// A manager for a repository whose catalog is given and which has no other records yet. The
    /// actor is the host, or `unknown`.
    pub fn new(
        repo_path: &str,
        catalog: CatalogIndex,
        chunk_key: [u8; 32],
        metadata_key: [u8; 32],
        hostname: Option<String>,
    ) -> (out: Self)
        requires
            catalog.wf(),
        ensures
            out.wf(),
            out.tables() == catalog@,
            out.references().len() == 0,
            out.file_states().len() == 0,
            out.summaries() == Map::<Seq<char>, (Seq<u8>, Seq<u8>)>::empty(),
            out.summary_key() == metadata_key@,
            out.log().len() == 0,
            out.log_key() == metadata_key@,
            out.chunk_key() == chunk_key@,
            out.chunk_epoch() == 0,
            out.root() == repo_path@,
            out.actor_name() == (match hostname {
                Some(h) => h@,
                None => "unknown"@,
            }),
    {
        let actor = match hostname {
            Some(h) => h,
            None => copy_text("unknown"),
        };
        SnapshotManager {
            catalog,
            encryptor: StreamingEncryptor::new(&chunk_key),
            dedup: DedupTable::new(),
            block_tracker: BlockTracker::new(),
            metadata_store: MetadataStore::open(repo_path, metadata_key),
            history: History::open(repo_path, metadata_key),
            repo_path: copy_text(repo_path),
            actor,
        }
    }

    /// The manager with the records of a repository in place of its own.
    pub fn with_records(
        self,
        dedup: DedupTable,
        block_tracker: BlockTracker,
        metadata_store: MetadataStore,
        history: History,
    ) -> (out: Self)
        requires
            self.wf(),
            dedup.wf(),
            block_tracker.wf(),
            metadata_store.wf(),
        ensures
            out.wf(),
            out.tables() == self.tables(),
            out.references() == dedup@,
            out.file_states() == block_tracker@,
            out.summaries() == metadata_store@,
            out.summary_key() == metadata_store.key(),
            out.log() == history@,
            out.log_key() == history.key(),
            out.chunk_key() == self.chunk_key(),
            out.chunk_epoch() == self.chunk_epoch(),
            out.root() == self.root(),
            out.actor_name() == self.actor_name(),
    {
        SnapshotManager {
            catalog: self.catalog,
            encryptor: self.encryptor,
            dedup,
            block_tracker,
            metadata_store,
            history,
            repo_path: self.repo_path,
            actor: self.actor,
        }
    }

    /// The manager with another actor for the log.
    pub fn with_actor(self, actor: &str) -> (out: Self)
        requires
            self.wf(),
        ensures
            out.wf(),
            out.same_records(&self),
            out.chunk_epoch() == self.chunk_epoch(),
            out.actor_name() == actor@,
    {
        let mut out = self;
        out.actor = copy_text(actor);
        out
    }

    /// The manager with another key epoch for new chunks.
    pub fn with_key_epoch(self, epoch: u32) -> (out: Self)
        requires
            self.wf(),
        ensures
            out.wf(),
            out.same_records(&self),
            out.chunk_epoch() == epoch,
            out.actor_name() == self.actor_name(),
    {
        SnapshotManager {
            catalog: self.catalog,
            encryptor: self.encryptor.with_epoch(epoch),
            dedup: self.dedup,
            block_tracker: self.block_tracker,
            metadata_store: self.metadata_store,
            history: self.history,
            repo_path: self.repo_path,
            actor: self.actor,
        }
    }

    pub fn catalog(&self) -> (out: &CatalogIndex)
        requires
            self.wf(),
        ensures
            out.wf(),
            out@ == self.tables(),
    {
        &self.catalog
    }

    pub fn dedup(&self) -> (out: &DedupTable)
        requires
            self.wf(),
        ensures
            out.wf(),
            out@ == self.references(),
    {
        &self.dedup
    }

    pub fn block_tracker(&self) -> (out: &BlockTracker)
        requires
            self.wf(),
        ensures
            out.wf(),
            out@ == self.file_states(),
    {
        &self.block_tracker
    }

    /// Access to the tracker for the files of a new backup.
    pub fn block_tracker_mut(&mut self) -> (out: &mut BlockTracker)
        requires
            old(self).wf(),
        ensures
            out.wf(),
            out@ == old(self).file_states(),
            final(self).file_states() == final(out)@,
            final(out).wf() ==> final(self).wf(),
            final(self).tables() == old(self).tables(),
            final(self).references() == old(self).references(),
            final(self).summaries() == old(self).summaries(),
            final(self).log() == old(self).log(),
            final(self).same_setup(old(self)),
            final(self).chunk_epoch() == old(self).chunk_epoch(),
            final(self).actor_name() == old(self).actor_name(),
    {
        &mut self.block_tracker
    }

    pub fn metadata_store(&self) -> (out: &MetadataStore)
        requires
            self.wf(),
        ensures
            out.wf(),
            out@ == self.summaries(),
            out.key() == self.summary_key(),
    {
        &self.metadata_store
    }

    pub fn history(&self) -> (out: &History)
        ensures
            out@ == self.log(),
            out.key() == self.log_key(),
    {
        &self.history
    }

    pub fn encryptor(&self) -> (out: &StreamingEncryptor)
        ensures
            out.key() == self.chunk_key(),
            out.key_epoch() == self.chunk_epoch(),
    {
        &self.encryptor
    }

    pub fn repo_path(&self) -> (out: &str)
        ensures
            out@ == self.root(),
    {
        self.repo_path.as_str()
    }

    /// Notes a new snapshot: a reference to each of its chunks, its serialized summary, and an
    /// entry in the log. Where the summary is too long to encrypt, only the references are noted.
    pub fn finalize_snapshot(
        &mut self,
        snapshot_id: &SnapshotId,
        chunk_hashes: &[[u8; 32]],
        metadata: &[u8],
        merkle_root: Option<Node>,
    ) -> (out: Result<(), LazarusError>)
        requires
            old(self).wf(),
        ensures
            final(self).wf(),
            final(self).same_setup(old(self)),
            final(self).actor_name() == old(self).actor_name(),
            final(self).chunk_epoch() == old(self).chunk_epoch(),
            final(self).tables() == old(self).tables(),
            final(self).file_states() == old(self).file_states(),
            final(self).references() == with_references(
                old(self).references(),
                snapshot_id.0@,
                chunk_hashes@,
            ),
            out is Ok <==> metadata@.len() <= PLAINTEXT_MAX,
            match out {
                Ok(_) => {
                    &&& summary_of(
                        final(self).summaries(),
                        final(self).summary_key(),
                        snapshot_id.0@,
                    ) == Ok::<_, Seq<char>>(Some(metadata@))
                    &&& final(self).summaries().dom() == old(self).summaries().dom().insert(
                        snapshot_id.0@,
                    )
                    &&& logged(
                        old(self).log(),
                        final(self).log(),
                        old(self).log_key(),
                        Operation::Backup,
                        old(self).actor_name(),
                        backup_details(snapshot_id.0@, chunk_hashes@.len(), merkle_root),
                    )
                    &&& clock_shows(final(self).log().last().timestamp)
                },
                Err(e) => {
                    &&& e is EncryptionError
                    &&& e.detail() == "Metadata encrypt failed"@
                    &&& final(self).summaries() == old(self).summaries()
                    &&& final(self).log() == old(self).log()
                },
            },
            forall|n: Seq<char>|
                n != snapshot_id.0@ && old(self).summaries().dom().contains(n)
                    ==> #[trigger] final(self).summaries()[n] == old(self).summaries()[n],
    {
        self.dedup.add_references_batch(snapshot_id.as_str(), chunk_hashes);
        match self.metadata_store.put(snapshot_id.as_str(), metadata) {
            Err(e) => {
                return Err(e);
            },
            Ok(_) => {},
        }
        let mut details = copy_text("{\"chunk_count\":");
        details.append(decimal_string(chunk_hashes.len() as u64).as_str());
        details.append(",\"merkle_root\":");
        match merkle_root {
            Some(r) => {
                details.append(quote_json(encode_slice(r.as_slice()).as_str()).as_str());
            },
            None => {
                details.append("null");
            },
        }
        details.append(",\"snapshot_id\":");
        details.append(quote_json(snapshot_id.as_str()).as_str());
        details.append("}");
        assert(details@ =~= backup_details(snapshot_id.0@, chunk_hashes@.len(), merkle_root));
        let actor = copy_text(self.actor.as_str());
        let _ = self.history.record(Operation::Backup, actor.as_str(), details.as_str());
        Ok(())
    }

    /// Removes a snapshot from the references, the summaries and the catalog, notes that in the
    /// log, and gives the chunks of the catalog that no snapshot refers to any more.
    pub fn remove_snapshot(&mut self, snapshot_id: &SnapshotId) -> (orphans: Vec<String>)
        requires
            old(self).wf(),
        ensures
            final(self).wf(),
            final(self).same_setup(old(self)),
            final(self).actor_name() == old(self).actor_name(),
            final(self).chunk_epoch() == old(self).chunk_epoch(),
            final(self).file_states() == old(self).file_states(),
            final(self).tables() == removal::without_snapshot(old(self).tables(), snapshot_id.0@),
            final(self).references() == without_snapshot(old(self).references(), snapshot_id.0@),
            final(self).summaries() == old(self).summaries().remove(snapshot_id.0@),
            logged(
                old(self).log(),
                final(self).log(),
                old(self).log_key(),
                Operation::Prune,
                old(self).actor_name(),
                prune_details(snapshot_id.0@),
            ),
            clock_shows(final(self).log().last().timestamp),
            texts(orphans@) == kept(
                chunk_hashes(final(self).tables()),
                unreferenced_hex(final(self).references()),
            ),
    {
        let _ = self.dedup.drop_snapshot(snapshot_id.as_str());
        self.metadata_store.delete(snapshot_id.as_str());
        self.catalog.delete_snapshot(snapshot_id.as_str());
        let mut details = copy_text("{\"snapshot_id\":");
        details.append(quote_json(snapshot_id.as_str()).as_str());
        details.append("}");
        assert(details@ =~= prune_details(snapshot_id.0@));
        let actor = copy_text(self.actor.as_str());
        let _ = self.history.record(Operation::Prune, actor.as_str(), details.as_str());
        self.dedup.unreferenced_chunks_hex(&self.catalog)
    }

    /// All snapshots, the newest first, with the summaries that can be read.
    pub fn list_snapshots(&self) -> (out: Vec<SnapshotSummary>)
        requires
            self.wf(),
        ensures
            out@.len() == snapshot_list(self.tables()).len(),
            forall|i: int|
                0 <= i < out@.len() ==> {
                    &&& (#[trigger] out@[i]).id@ == snapshot_list(self.tables())[i].0
                    &&& out@[i].timestamp == snapshot_list(self.tables())[i].1
                    &&& match out@[i].metadata {
                        Some(m) => readable_summary(
                            self.summaries(),
                            self.summary_key(),
                            out@[i].id@,
                        ) == Some(m@),
                        None => readable_summary(
                            self.summaries(),
                            self.summary_key(),
                            out@[i].id@,
                        ) is None,
                    }
                },
    {
        let listed = self.catalog.list_snapshots();
        let ghost rows = snapshot_list(self.catalog@);
        let mut out: Vec<SnapshotSummary> = Vec::new();
        let mut i: usize = 0;
        while i < listed.len()
            invariant
                self.wf(),
                i <= listed@.len(),
                facts(listed@) == rows,
                rows == snapshot_list(self.tables()),
                out@.len() == i,
                forall|k: int|
                    0 <= k < i ==> {
                        &&& (#[trigger] out@[k]).id@ == rows[k].0
                        &&& out@[k].timestamp == rows[k].1
                        &&& match out@[k].metadata {
                            Some(m) => readable_summary(
                                self.summaries(),
                                self.summary_key(),
                                out@[k].id@,
                            ) == Some(m@),
                            None => readable_summary(
                                self.summaries(),
                                self.summary_key(),
                                out@[k].id@,
                            ) is None,
                        }
                    },
            decreases listed@.len() - i,
        {
            assert(facts(listed@)[i as int] == listed@[i as int]@);
            let metadata = match self.metadata_store.get(listed[i].0.as_str()) {
                Ok(m) => m,
                Err(_) => None,
            };
            out.push(
                SnapshotSummary {
                    id: copy_text(listed[i].0.as_str()),
                    timestamp: listed[i].1,
                    metadata,
                },
            );
            i += 1;
        }
        out
    }

    /// The root of the hash tree over chunk hashes.
    pub fn merkle_root(chunks: &[Node]) -> (out: Node)
        ensures
            out == merkle_root(chunks@),
    {
        root_of(chunks)
    }

    /// Notes an operation in the log.
    pub fn record_history(&mut self, op: Operation, details: &str)
        requires
            old(self).wf(),
        ensures
            final(self).wf(),
            final(self).same_setup(old(self)),
            final(self).actor_name() == old(self).actor_name(),
            final(self).chunk_epoch() == old(self).chunk_epoch(),
            final(self).tables() == old(self).tables(),
            final(self).references() == old(self).references(),
            final(self).file_states() == old(self).file_states(),
            final(self).summaries() == old(self).summaries(),
            logged(
                old(self).log(),
                final(self).log(),
                old(self).log_key(),
                op,
                old(self).actor_name(),
                details@,
            ),
            clock_shows(final(self).log().last().timestamp),
    {
        let actor = copy_text(self.actor.as_str());
        let _ = self.history.record(op, actor.as_str(), details);
    }
}

/// A logged operation stands at the end of the log, with who did what, and is linked to what was
/// there, which stays.
pub proof fn the_log_grows_at_its_end(
    before: Seq<HistoryEntry>,
    after: Seq<HistoryEntry>,
    key: Seq<u8>,
    operation: Operation,
    actor: Seq<char>,
    details: Seq<char>,
)
    requires
        logged(before, after, key, operation, actor, details),
    ensures
        after.len() == before.len() + 1,
        forall|i: int| 0 <= i < before.len() ==> after[i] == #[trigger] before[i],
        after[before.len() as int].operation == operation,
        after[before.len() as int].actor@ == actor,
        after[before.len() as int].details@ == details,
        before.len() > 0 ==> after[before.len() as int].prev_signature@
            == before.last().signature@,
        before.len() == 0 ==> after[0].prev_signature@.len() == 0,
        after[before.len() as int].signature@ == entry_mac(after.last(), key),
        clean(before, key) ==> clean(after, key),
{
    assert forall|i: int| 0 <= i < before.len() implies after[i] == #[trigger] before[i] by {
        assert(after.drop_last()[i] == after[i]);
    }
}

/// A summary can be read where it was stored under the key and decrypts.
pub proof fn summaries_are_read(
    entries: Map<Seq<char>, (Seq<u8>, Seq<u8>)>,
    key: Seq<u8>,
    id: Seq<char>,
    p: Seq<u8>,
)
    ensures
        readable_summary(entries, key, id) == Some(p) <==> summary_of(entries, key, id) == Ok::<
            _,
            Seq<char>,
        >(Some(p)),
{
}

/// Managers with the same records have the same tables, references, file states, summaries and log,
/// under the same keys and in the same place.
pub proof fn same_records_are_the_same(a: &SnapshotManager, b: &SnapshotManager)
    requires
        a.same_records(b),
    ensures
        a.tables() == b.tables(),
        a.references() == b.references(),
        a.file_states() == b.file_states(),
        a.summaries() == b.summaries(),
        a.log() == b.log(),
        a.summary_key() == b.summary_key(),
        a.log_key() == b.log_key(),
        a.chunk_key() == b.chunk_key(),
        a.root() == b.root(),
{
}

/// What is logged of a backup: its snapshot, how many chunks it has and the root over them.
pub proof fn backups_are_described(id: Seq<char>, chunk_count: nat, root: Node)
    ensures
        backup_details(id, chunk_count, Some(root)) == "{\"chunk_count\":"@ + decimal(chunk_count)
            + ",\"merkle_root\":"@ + json_quoted(hex_text(root@)) + ",\"snapshot_id\":"@
            + json_quoted(id) + "}"@,
        backup_details(id, chunk_count, None) == "{\"chunk_count\":"@ + decimal(chunk_count)
            + ",\"merkle_root\":null,\"snapshot_id\":"@ + json_quoted(id) + "}"@,
        prune_details(id) == "{\"snapshot_id\":"@ + json_quoted(id) + "}"@,
{
    reveal_strlit(",\"merkle_root\":");
    reveal_strlit("null");
    reveal_strlit(",\"snapshot_id\":");
    reveal_strlit(",\"merkle_root\":null,\"snapshot_id\":");
    let front = "{\"chunk_count\":"@ + decimal(chunk_count);
    let quoted = json_quoted(id);
    assert(",\"merkle_root\":"@ + "null"@ + ",\"snapshot_id\":"@
        =~= ",\"merkle_root\":null,\"snapshot_id\":"@);
    assert(backup_details(id, chunk_count, None) =~= front + (",\"merkle_root\":"@ + "null"@
        + ",\"snapshot_id\":"@) + quoted + "}"@);
}

} // verus!
