//! Summaries of snapshots, each encrypted under the metadata key.
use crate::catalog::sealed::ascending;
use crate::catalog::sealed::before;
use crate::catalog::sealed::collected;
use crate::catalog::sealed::entry_map;
use crate::catalog::sealed::stored;
use crate::catalog::sealed::Lookup;
use crate::catalog::sealed::SealedEntry;
use crate::catalog::sealed::SealedMap;
use crate::error::LazarusError;
use crate::paths::join_path;
use crate::paths::joined_path;
use crate::primitives::aes256gcm_open;
use crate::primitives::drawn;
use crate::primitives::PLAINTEXT_MAX;
use crate::text::concat2;
use crate::text::copy_text;
use crate::text::decimal;
use crate::text::decimal_string;
use crate::text::texts;
use vstd::prelude::*;

verus! {

/// The version of the metadata file.
pub const METADATA_VERSION: u32 = 1;

/// What an operator notes of a snapshot.
#[derive(Debug, Clone, PartialEq, Eq)]
pub struct SnapshotMetadata {
    /// Tags such as `weekly` or `production`.
    pub tags: Vec<String>,
    pub description: Option<String>,
    /// A retention period in days that takes the place of the repository's.
    pub retention_days: Option<u32>,
    /// The path that the snapshot was taken of.
    pub source: Option<String>,
    /// The host that took the snapshot.
    pub hostname: Option<String>,
    /// The chunk that holds the fingerprint of the system, in hexadecimal.
    pub system_fingerprint_chunk: Option<String>,
    /// The format of that fingerprint.
    pub system_fingerprint_format_version: Option<u32>,
}

impl Default for SnapshotMetadata {
    fn default() -> (out: Self)
        ensures
            out.tags@.len() == 0,
            out.description is None,
            out.retention_days is None,
            out.source is None,
            out.hostname is None,
            out.system_fingerprint_chunk is None,
            out.system_fingerprint_format_version is None,
    {
        SnapshotMetadata {
            tags: Vec::new(),
            description: None,
            retention_days: None,
            source: None,
            hostname: None,
            system_fingerprint_chunk: None,
            system_fingerprint_format_version: None,
        }
    }
}

/// The summary of a snapshot, or the text of the error.
pub open spec fn summary_of(
    entries: Map<Seq<char>, (Seq<u8>, Seq<u8>)>,
    key: Seq<u8>,
    id: Seq<char>,
) -> Result<Option<Seq<u8>>, Seq<char>> {
    match stored(entries, key, id) {
        Lookup::Missing => Ok(None),
        Lookup::BadNonce => Err("Metadata entry has invalid nonce length"@),
        Lookup::Rejected => Err("Metadata decrypt failed"@),
        Lookup::Found(p) => Ok(Some(p)),
    }
}

/// The summaries of all snapshots of a repository, in serialized form.
pub struct MetadataStore {
    path: String,
    key: [u8; 32],
    entries: SealedMap,
}

impl View for MetadataStore {
    type V = Map<Seq<char>, (Seq<u8>, Seq<u8>)>;

    closed spec fn view(&self) -> Map<Seq<char>, (Seq<u8>, Seq<u8>)> {
        self.entries@
    }
}

impl MetadataStore {
    pub closed spec fn wf(&self) -> bool {
        self.entries.wf()
    }

    /// The key that guards the summaries.
    pub closed spec fn key(&self) -> Seq<u8> {
        self.key@
    }

    /// Where the metadata file stands.
    pub closed spec fn file(&self) -> Seq<char> {
        self.path@
    }

    /// The entries in the order of the snapshot ids.
    pub closed spec fn listed(&self) -> Seq<SealedEntry> {
        self.entries.listed()
    }

    /// The store of a repository that has no metadata file yet.
    pub fn open(repo_path: &str, metadata_key: [u8; 32]) -> (out: Self)
        ensures
            out.wf(),
            out@ == Map::<Seq<char>, (Seq<u8>, Seq<u8>)>::empty(),
            out.key() == metadata_key@,
            out.file() == joined_path(repo_path@, "snapshot_metadata.json"@),
    {
        MetadataStore {
            path: join_path(repo_path, "snapshot_metadata.json"),
            key: metadata_key,
            entries: SealedMap::new(),
        }
    }

    /// The store of a repository with the content of its metadata file.
    pub fn load(
        repo_path: &str,
        metadata_key: [u8; 32],
        version: u32,
        entries: Vec<SealedEntry>,
    ) -> (out: Result<Self, LazarusError>)
        ensures
            out is Ok <==> version == METADATA_VERSION,
            match out {
                Ok(v) => {
                    &&& v.wf()
                    &&& v@ == collected(entries@)
                    &&& v.key() == metadata_key@
                    &&& v.file() == joined_path(repo_path@, "snapshot_metadata.json"@)
                },
                Err(e) => e is Storage && e.detail() == "Unsupported metadata file version: "@
                    + decimal(version as nat),
            },
    {
        if version != METADATA_VERSION {
            return Err(
                LazarusError::Storage(
                    concat2(
                        "Unsupported metadata file version: ",
                        decimal_string(version as u64).as_str(),
                    ),
                ),
            );
        }
        Ok(
            MetadataStore {
                path: join_path(repo_path, "snapshot_metadata.json"),
                key: metadata_key,
                entries: SealedMap::from_entries(entries),
            },
        )
    }

    pub fn path(&self) -> (out: &str)
        ensures
            out@ == self.file(),
    {
        self.path.as_str()
    }

    /// What the metadata file has to hold.
    pub fn entries(&self) -> (out: &Vec<SealedEntry>)
        requires
            self.wf(),
        ensures
            ascending(out@),
            entry_map(out@) == self@,
            out@ == self.listed(),
    {
        self.entries.entries()
    }

    /// Stores the serialized summary of a snapshot, in place of the one that may be there.
    /// Reading it back gives the same bytes.
    pub fn put(&mut self, snapshot_id: &str, summary: &[u8]) -> (out: Result<(), LazarusError>)
        requires
            old(self).wf(),
        ensures
            final(self).wf(),
            final(self).key() == old(self).key(),
            final(self).file() == old(self).file(),
            out is Ok <==> summary@.len() <= PLAINTEXT_MAX,
            out matches Err(e) ==> {
                &&& e is EncryptionError
                &&& e.detail() == "Metadata encrypt failed"@
                &&& final(self)@ == old(self)@
            },
            out is Ok ==> {
                &&& summary_of(final(self)@, final(self).key(), snapshot_id@) == Ok::<_, Seq<char>>(
                    Some(summary@),
                )
                &&& final(self)@.dom() == old(self)@.dom().insert(snapshot_id@)
                &&& final(self)@[snapshot_id@].0.len() == 12
                &&& drawn(final(self)@[snapshot_id@].0)
            },
            forall|n: Seq<char>|
                n != snapshot_id@ && old(self)@.dom().contains(n) ==> #[trigger] final(self)@[n]
                    == old(self)@[n],
    {
        if self.entries.put(&self.key, snapshot_id, summary) {
            Ok(())
        } else {
            Err(LazarusError::EncryptionError(copy_text("Metadata encrypt failed")))
        }
    }

    /// The serialized summary of a snapshot, or `None` where there is none.
    pub fn get(&self, snapshot_id: &str) -> (out: Result<Option<Vec<u8>>, LazarusError>)
        requires
            self.wf(),
        ensures
            match out {
                Ok(Some(p)) => summary_of(self@, self.key(), snapshot_id@) == Ok::<_, Seq<char>>(
                    Some(p@),
                ),
                Ok(None) => summary_of(self@, self.key(), snapshot_id@) == Ok::<
                    Option<Seq<u8>>,
                    Seq<char>,
                >(None),
                Err(e) => e is EncryptionError && summary_of(self@, self.key(), snapshot_id@)
                    == Err::<Option<Seq<u8>>, _>(e.detail()),
            },
    {
        match self.entries.get(&self.key, snapshot_id) {
            Lookup::Missing => Ok(None),
            Lookup::BadNonce => Err(
                LazarusError::EncryptionError(copy_text("Metadata entry has invalid nonce length")),
            ),
            Lookup::Rejected => Err(
                LazarusError::EncryptionError(copy_text("Metadata decrypt failed")),
            ),
            Lookup::Found(p) => Ok(Some(p)),
        }
    }

    /// Takes the summary of a snapshot away; nothing changes where there is none.
    pub fn delete(&mut self, snapshot_id: &str)
        requires
            old(self).wf(),
        ensures
            final(self).wf(),
            final(self).key() == old(self).key(),
            final(self).file() == old(self).file(),
            final(self)@ == old(self)@.remove(snapshot_id@),
            summary_of(final(self)@, final(self).key(), snapshot_id@) == Ok::<
                Option<Seq<u8>>,
                Seq<char>,
            >(None),
    {
        self.entries.remove(snapshot_id);
    }

    /// The ids of the snapshots that have a summary, in ascending order.
    pub fn ids(&self) -> (out: Vec<String>)
        requires
            self.wf(),
        ensures
            forall|n: Seq<char>| texts(out@).contains(n) <==> self@.dom().contains(n),
            forall|i: int, j: int|
                0 <= i < j < out@.len() ==> before(
                    #[trigger] texts(out@)[i],
                    #[trigger] texts(out@)[j],
                ),
    {
        self.entries.names()
    }

    /// All summaries in the order of the snapshot ids. It fails with the first entry that cannot
    /// be decrypted.
    pub fn load_all(&self) -> (out: Result<Vec<(String, Vec<u8>)>, LazarusError>)
        requires
            self.wf(),
        ensures
            match out {
                Ok(list) => {
                    &&& list@.len() == self.listed().len()
                    &&& forall|i: int|
                        0 <= i < list@.len() ==> {
                            &&& (#[trigger] list@[i]).0@ == self.listed()[i].name@
                            &&& summary_of(self@, self.key(), list@[i].0@) == Ok::<_, Seq<char>>(
                                Some(list@[i].1@),
                            )
                        }
                },
                Err(e) => {
                    &&& e is EncryptionError
                    &&& exists|i: int|
                        {
                            &&& 0 <= i < self.listed().len()
                            &&& summary_of(
                                self@,
                                self.key(),
                                (#[trigger] self.listed()[i]).name@,
                            ) == Err::<Option<Seq<u8>>, _>(e.detail())
                            &&& forall|j: int|
                                0 <= j < i ==> summary_of(
                                    self@,
                                    self.key(),
                                    (#[trigger] self.listed()[j]).name@,
                                ) is Ok
                        }
                },
            },
    {
        let listed = self.entries.entries();
        let mut out: Vec<(String, Vec<u8>)> = Vec::new();
        let mut i: usize = 0;
        while i < listed.len()
            invariant
                self.wf(),
                listed@ == self.listed(),
                entry_map(listed@) == self@,
                i <= listed@.len(),
                out@.len() == i,
                forall|j: int|
                    0 <= j < i ==> {
                        &&& (#[trigger] out@[j]).0@ == listed@[j].name@
                        &&& summary_of(self@, self.key(), out@[j].0@) == Ok::<_, Seq<char>>(
                            Some(out@[j].1@),
                        )
                    },
            decreases listed@.len() - i,
        {
            let ghost name = listed@[i as int].name@;
            assert(self@.dom().contains(name)) by {
                assert(listed@[i as int].name@ == name);
            }
            assert forall|j: int| 0 <= j < i implies summary_of(
                self@,
                self.key(),
                (#[trigger] listed@[j]).name@,
            ) is Ok by {
                assert(out@[j].0@ == listed@[j].name@);
            }
            match self.get(listed[i].name.as_str()) {
                Err(e) => {
                    return Err(e);
                },
                Ok(None) => {
                    assert(false);
                },
                Ok(Some(p)) => {
                    out.push((copy_text(listed[i].name.as_str()), p));
                },
            }
            i += 1;
        }
        Ok(out)
    }
}

/// A summary comes out of the store only under its snapshot and with the key; what is not there is
/// no error.
pub proof fn summaries_need_snapshot_and_key(
    entries: Map<Seq<char>, (Seq<u8>, Seq<u8>)>,
    key: Seq<u8>,
    id: Seq<char>,
    summary: Seq<u8>,
)
    ensures
        summary_of(entries, key, id) == Ok::<_, Seq<char>>(Some(summary)) <==> {
            &&& entries.dom().contains(id)
            &&& entries[id].0.len() == 12
            &&& aes256gcm_open(key, entries[id].0, entries[id].1) == Some(summary)
        },
        summary_of(entries, key, id) == Ok::<Option<Seq<u8>>, Seq<char>>(None)
            <==> !entries.dom().contains(id),
{
}

} // verus!
