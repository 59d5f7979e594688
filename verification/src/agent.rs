//! The decisions of the agent: what a job asks for, which chunks go to the server, how a
//! restore moves on, and which chunks a prune may take.
use crate::bytes::copy_range;
use crate::bytes::hash_from_hex;
use crate::bytes::hash_hex_round_trip;
use crate::bytes::hash_of_hex;
use crate::bytes::hex_text;
use crate::bytes::to_hex;
use crate::catalog::index::chunk_hashes;
use crate::catalog::index::file_chunk_key;
use crate::catalog::index::snapshot_list;
use crate::catalog::index::snapshots_listed_newest_first;
use crate::catalog::index::CatalogIndex;
use crate::catalog::index::CatalogState;
use crate::catalog::index::FileChunkFact;
use crate::catalog::index::ObjectType;
use crate::catalog::rows::has_key;
use crate::catalog::rows::kept;
use crate::catalog::rows::kept_contains;
use crate::catalog::rows::kept_step;
use crate::chunking::cdc::all_scannable;
use crate::chunking::cdc::cdc_chunks;
use crate::chunking::cdc::CdcChunker;
use crate::chunking::cdc::MASK_L;
use crate::commands::backup::with_chunk;
use crate::commands::prune::kept_ids;
use crate::commands::prune::live;
use crate::commands::prune::only_dead_chunks_are_reclaimed;
use crate::commands::prune::plan_prune;
use crate::commands::prune::reclaimable;
use crate::commands::snapshot_utils::calculate_snapshot_size;
use crate::commands::snapshot_utils::size_sum;
use crate::compression::adaptive::decode_chunk;
use crate::compression::adaptive::decoded;
use crate::encryption::key_manager::KeyManager;
use crate::error::LazarusError;
use crate::primitives::aes256gcm_open;
use crate::primitives::blake3_hash;
use crate::primitives::hash_bytes;
use crate::reading::numbers_read_back;
use crate::security::ransomware::DetectionVerdict;
use crate::snapshot::dedup::of_hash;
use crate::snapshot::dedup::DedupTable;
use crate::snapshot::dedup::RefFact;
use crate::storage::chunks::stored_chunk;
use crate::storage::chunks::NONCE_LEN;
use crate::text::concat2;
use crate::text::concat3;
use crate::text::copy_text;
use crate::text::decimal;
use crate::text::decimal_string;
use crate::text::holds_text;
use crate::text::number_upto;
use crate::text::parse_number;
use crate::text::push_text;
use crate::text::same_text;
use crate::text::signed_decimal;
use crate::text::signed_string;
use crate::text::texts;
use crate::text::to_chars;
use vstd::arithmetic::power2::lemma2_to64;
use vstd::arithmetic::power2::pow2;
use vstd::prelude::*;

verus! {

// --- Jobs ----------------------------------------------------------------------------------

/// The kinds of jobs that the server hands out.
#[derive(Debug, Clone, Copy, PartialEq, Eq, Structural)]
pub enum JobType {
    Backup,
    Restore,
    Prune,
    Verify,
}

/// A job with the parameters that its kind needs.
#[derive(Debug)]
pub enum JobRequest {
    Backup { source: String },
    Restore { snapshot_id: String, destination: String },
    Prune { keep_last: usize, keep_days: u64, dry_run: bool },
    Verify,
}

/// How many snapshots a prune keeps where the job does not say.
pub const DEFAULT_KEEP_LAST: usize = 5;

/// How many days a prune looks back where the job does not say.
pub const DEFAULT_KEEP_DAYS: u64 = 30;

/// The value of a parameter, looked for from the given place on.
pub open spec fn parameter_from(
    parameters: Seq<(String, String)>,
    name: Seq<char>,
    from: int,
) -> Option<Seq<char>>
    decreases parameters.len() - from,
{
    if from < 0 || from >= parameters.len() {
        None
    } else if parameters[from].0@ == name {
        Some(parameters[from].1@)
    } else {
        parameter_from(parameters, name, from + 1)
    }
}

/// The value of a parameter.
pub open spec fn parameter(parameters: Seq<(String, String)>, name: Seq<char>) -> Option<Seq<char>> {
    parameter_from(parameters, name, 0)
}

fn find_parameter<'a>(parameters: &'a Vec<(String, String)>, name: &str) -> (out: Option<&'a str>)
    ensures
        out is Some <==> parameter(parameters@, name@) is Some,
        out matches Some(v) ==> parameter(parameters@, name@) == Some(v@),
{
    let mut i: usize = 0;
    while i < parameters.len()
        invariant
            i <= parameters@.len(),
            parameter(parameters@, name@) == parameter_from(parameters@, name@, i as int),
        decreases parameters@.len() - i,
    {
        if same_text(parameters[i].0.as_str(), name) {
            return Some(parameters[i].1.as_str());
        }
        i += 1;
    }
    None
}

/// The number in a parameter, or the number to take where there is none.
pub open spec fn number_parameter(
    parameters: Seq<(String, String)>,
    name: Seq<char>,
    limit: nat,
    otherwise: nat,
) -> nat {
    match parameter(parameters, name) {
        None => otherwise,
        Some(v) => match number_upto(v, limit) {
            None => otherwise,
            Some(n) => n,
        },
    }
}

fn find_number(parameters: &Vec<(String, String)>, name: &str, limit: u64, otherwise: u64) -> (out:
    u64)
    requires
        otherwise <= limit,
    ensures
        out == number_parameter(parameters@, name@, limit as nat, otherwise as nat),
        out <= limit,
{
    match find_parameter(parameters, name) {
        None => otherwise,
        Some(v) => match parse_number(to_chars(v).as_slice(), limit) {
            None => otherwise,
            Some(n) => n,
        },
    }
}

/// Whether the job only wants to know what a prune would take.
pub open spec fn wants_dry_run(parameters: Seq<(String, String)>) -> bool {
    parameter(parameters, "dry_run"@) == Some("true"@) || parameter(parameters, "dry_run"@) == Some(
        "1"@,
    )
}

/// Reads a job. The kind is `None` where the server sent a code that stands for none.
pub fn read_job(kind: Option<JobType>, code: i32, parameters: &Vec<(String, String)>) -> (out: Result<
    JobRequest,
    String,
>)
    ensures
        match (kind, out) {
            (None, Err(m)) => m@ == "Unknown job type: "@ + signed_decimal(code as int),
            (Some(JobType::Backup), Ok(JobRequest::Backup { source })) => parameter(
                parameters@,
                "source"@,
            ) == Some(source@),
            (Some(JobType::Backup), Err(m)) => {
                &&& parameter(parameters@, "source"@) is None
                &&& m@ == "Missing 'source' parameter"@
            },
            (Some(JobType::Restore), Ok(JobRequest::Restore { snapshot_id, destination })) => {
                &&& parameter(parameters@, "snapshot_id"@) == Some(snapshot_id@)
                &&& parameter(parameters@, "destination"@) == Some(destination@)
            },
            (Some(JobType::Restore), Err(m)) => if parameter(parameters@, "snapshot_id"@) is None {
                m@ == "Missing 'snapshot_id' parameter"@
            } else {
                &&& parameter(parameters@, "destination"@) is None
                &&& m@ == "Missing 'destination' parameter"@
            },
            (Some(JobType::Prune), Ok(JobRequest::Prune { keep_last, keep_days, dry_run })) => {
                &&& keep_last == number_parameter(
                    parameters@,
                    "keep_last"@,
                    usize::MAX as nat,
                    DEFAULT_KEEP_LAST as nat,
                )
                &&& keep_days == number_parameter(
                    parameters@,
                    "keep_days"@,
                    u64::MAX as nat,
                    DEFAULT_KEEP_DAYS as nat,
                )
                &&& dry_run == wants_dry_run(parameters@)
            },
            (Some(JobType::Verify), Ok(JobRequest::Verify)) => true,
            _ => false,
        },
{
    let job = match kind {
        None => {
            return Err(concat2("Unknown job type: ", signed_string(code as i64).as_str()));
        },
        Some(k) => k,
    };
    match job {
        JobType::Backup => match find_parameter(parameters, "source") {
            Some(source) => Ok(JobRequest::Backup { source: copy_text(source) }),
            None => Err(copy_text("Missing 'source' parameter")),
        },
        JobType::Restore => {
            let snapshot_id = match find_parameter(parameters, "snapshot_id") {
                Some(s) => s,
                None => {
                    return Err(copy_text("Missing 'snapshot_id' parameter"));
                },
            };
            let destination = match find_parameter(parameters, "destination") {
                Some(d) => d,
                None => {
                    return Err(copy_text("Missing 'destination' parameter"));
                },
            };
            Ok(
                JobRequest::Restore {
                    snapshot_id: copy_text(snapshot_id),
                    destination: copy_text(destination),
                },
            )
        },
        JobType::Prune => {
            let keep_last: u64 = find_number(
                parameters,
                "keep_last",
                usize::MAX as u64,
                DEFAULT_KEEP_LAST as u64,
            );
            let keep_days: u64 = find_number(parameters, "keep_days", u64::MAX, DEFAULT_KEEP_DAYS);
            let dry_run = match find_parameter(parameters, "dry_run") {
                Some(v) => same_text(v, "true") || same_text(v, "1"),
                None => false,
            };
            Ok(JobRequest::Prune { keep_last: keep_last as usize, keep_days, dry_run })
        },
        JobType::Verify => Ok(JobRequest::Verify),
    }
}

// --- Talking to the server -----------------------------------------------------------------

/// How often a transfer is tried.
pub const MAX_ATTEMPTS: u32 = 3;

/// How many milliseconds to wait after the given failed attempt, counted from one. `None` where
/// there is no other attempt.
pub fn retry_delay(attempt: u32) -> (out: Option<u64>)
    requires
        attempt >= 1,
    ensures
        out is None <==> attempt >= MAX_ATTEMPTS,
        out matches Some(ms) ==> ms == 500 * pow2((attempt - 1) as nat),
{
    proof {
        lemma2_to64();
    }
    if attempt >= MAX_ATTEMPTS {
        None
    } else if attempt == 1 {
        Some(500)
    } else {
        Some(1000)
    }
}

/// A number of bytes as a report carries it.
pub fn reported_bytes(bytes: u64) -> (out: i64)
    ensures
        out == if bytes > i64::MAX {
            i64::MAX as int
        } else {
            bytes as int
        },
{
    if bytes > i64::MAX as u64 {
        i64::MAX
    } else {
        bytes as i64
    }
}

/// What a download gives. A chunk is never empty, so no data means that the server lacks it.
pub fn check_download(hash: &str, data: Vec<u8>) -> (out: Result<Vec<u8>, String>)
    ensures
        match out {
            Ok(d) => data@.len() > 0 && d@ == data@,
            Err(m) => data@.len() == 0 && m@ == "Chunk "@ + hash@ + " not found on server"@,
        },
{
    if data.len() == 0 {
        Err(concat3("Chunk ", hash, " not found on server"))
    } else {
        Ok(data)
    }
}

// --- Backup --------------------------------------------------------------------------------

/// Whether a backup may start.
pub fn check_source(verdict: DetectionVerdict, path: &str, present: bool) -> (out: Result<
    (),
    String,
>)
    ensures
        out is Ok <==> verdict != DetectionVerdict::Suspicious && present,
        out matches Err(m) ==> m@ == if verdict == DetectionVerdict::Suspicious {
            "Security Alert: Ransomware detected"@
        } else {
            "Source path does not exist: "@ + path@
        },
{
    if verdict == DetectionVerdict::Suspicious {
        Err(copy_text("Security Alert: Ransomware detected"))
    } else if !present {
        Err(concat2("Source path does not exist: ", path))
    } else {
        Ok(())
    }
}

/// Cuts the data of a file by its content. Every chunk comes with the hash under which the server
/// knows it and the catalog records it.
pub fn cut_file(data: &[u8]) -> (out: Vec<(Vec<u8>, String)>)
    requires
        all_scannable(data@, MASK_L, 0),
    ensures
        out@.len() == cdc_chunks(data@, MASK_L, 0).len(),
        forall|i: int|
            0 <= i < out@.len() ==> (#[trigger] out@[i]).0@ == cdc_chunks(data@, MASK_L, 0)[i]
                && out@[i].1@ == hex_text(blake3_hash(out@[i].0@)@),
{
    let mut chunker = CdcChunker::new(data);
    let mut out: Vec<(Vec<u8>, String)> = Vec::new();
    let ghost all = cdc_chunks(data@, MASK_L, 0);
    assert(all.skip(0) =~= all);
    loop
        invariant
            chunker.wf(),
            chunker.data() == data@,
            chunker.mask() == MASK_L,
            all_scannable(data@, MASK_L, chunker.position()),
            out@.len() <= all.len(),
            cdc_chunks(data@, MASK_L, chunker.position()) == all.skip(out@.len() as int),
            forall|i: int|
                0 <= i < out@.len() ==> (#[trigger] out@[i]).0@ == all[i] && out@[i].1@ == hex_text(
                    blake3_hash(out@[i].0@)@,
                ),
        ensures
            out@.len() == all.len(),
            forall|i: int|
                0 <= i < out@.len() ==> (#[trigger] out@[i]).0@ == all[i] && out@[i].1@ == hex_text(
                    blake3_hash(out@[i].0@)@,
                ),
        decreases data@.len() - chunker.position(),
    {
        match chunker.next() {
            None => {
                assert(all.skip(out@.len() as int).len() == 0);
                break;
            },
            Some(piece) => {
                let hash = to_hex(&hash_bytes(piece));
                proof {
                    let n = out@.len() as int;
                    let rest = cdc_chunks(data@, MASK_L, chunker.position());
                    assert(all.skip(n) == seq![piece@] + rest);
                    assert(all[n] == all.skip(n)[0]);
                    assert(all.skip(n + 1) =~= all.skip(n).drop_first());
                    assert((seq![piece@] + rest).drop_first() =~= rest);
                }
                out.push((vstd::slice::slice_to_vec(piece), hash));
            },
        }
    }
    out
}

/// Whether the server said that it lacks the chunk.
pub open spec fn lacks(replies: Seq<(String, bool)>, hash: Seq<char>) -> bool {
    exists|i: int| 0 <= i < replies.len() && #[trigger] replies[i].0@ == hash && !replies[i].1
}

fn missing_hashes(replies: &Vec<(String, bool)>) -> (out: Vec<String>)
    ensures
        forall|hash: Seq<char>| #[trigger] texts(out@).contains(hash) <==> lacks(replies@, hash),
{
    let mut out: Vec<String> = Vec::new();
    let mut i: usize = 0;
    while i < replies.len()
        invariant
            i <= replies@.len(),
            forall|hash: Seq<char>| #[trigger]
                texts(out@).contains(hash) <==> lacks(replies@.take(i as int), hash),
        decreases replies@.len() - i,
    {
        let ghost before = texts(out@);
        if !replies[i].1 {
            push_text(&mut out, replies[i].0.as_str());
        }
        proof {
            let now = replies@.take(i + 1);
            let past = replies@.take(i as int);
            assert forall|hash: Seq<char>| #[trigger]
                texts(out@).contains(hash) <==> lacks(now, hash) by {
                if lacks(past, hash) {
                    let j = choose|j: int|
                        0 <= j < past.len() && #[trigger] past[j].0@ == hash && !past[j].1;
                    assert(now[j].0@ == hash && !now[j].1);
                }
                if lacks(now, hash) && !lacks(past, hash) {
                    let j = choose|j: int|
                        0 <= j < now.len() && #[trigger] now[j].0@ == hash && !now[j].1;
                    if j < i {
                        assert(past[j].0@ == hash && !past[j].1);
                    }
                    assert(j == i);
                    assert(texts(out@).last() == hash);
                }
                if texts(out@).contains(hash) && !before.contains(hash) {
                    let k = choose|k: int| 0 <= k < texts(out@).len() && texts(out@)[k] == hash;
                    if k < before.len() {
                        assert(before[k] == hash);
                    }
                    assert(now[i as int].0@ == hash && !now[i as int].1);
                }
                if before.contains(hash) {
                    let k = choose|k: int| 0 <= k < before.len() && before[k] == hash;
                    assert(texts(out@)[k] == hash);
                }
            }
        }
        i += 1;
    }
    assert(replies@.take(i as int) =~= replies@);
    out
}

/// Which chunks of a file have to go to the server, from what the server says of their hashes.
pub fn select_uploads(hashes: &Vec<String>, replies: &Vec<(String, bool)>) -> (out: Vec<bool>)
    ensures
        out@.len() == hashes@.len(),
        forall|i: int|
            0 <= i < hashes@.len() ==> (#[trigger] out@[i] <==> lacks(replies@, hashes@[i]@)),
{
    let missing = missing_hashes(replies);
    let mut out: Vec<bool> = Vec::new();
    let mut i: usize = 0;
    while i < hashes.len()
        invariant
            i <= hashes@.len(),
            out@.len() == i,
            forall|hash: Seq<char>| #[trigger]
                texts(missing@).contains(hash) <==> lacks(replies@, hash),
            forall|j: int| 0 <= j < i ==> (#[trigger] out@[j] <==> lacks(replies@, hashes@[j]@)),
        decreases hashes@.len() - i,
    {
        let upload = holds_text(&missing, hashes[i].as_str());
        out.push(upload);
        i += 1;
    }
    out
}

/// The catalog once an uploaded chunk is in it. A chunk that the server had stays as it was.
pub open spec fn with_upload(
    state: CatalogState,
    hash: Seq<char>,
    upload: Option<(usize, usize)>,
) -> CatalogState {
    match upload {
        Some((stored_len, chunk_len)) => with_chunk(state, hash, stored_len as nat, chunk_len),
        None => state,
    }
}

/// Writes down a chunk of a file. For one that went to the server just now `upload` holds how
/// long it is there without its nonce, and how long it is.
pub fn record_chunk(
    catalog: &mut CatalogIndex,
    file_id: i64,
    order: usize,
    hash: &str,
    upload: Option<(usize, usize)>,
) -> (out: Result<(), LazarusError>)
    requires
        old(catalog).wf(),
    ensures
        final(catalog).wf(),
        ({
            let known = with_upload(old(catalog)@, hash@, upload);
            let taken = has_key(known.file_chunks, file_chunk_key(), (file_id, order as u64));
            &&& out is Ok <==> !taken && known.has_object(file_id) && known.has_chunk(hash@)
            &&& match out {
                Ok(_) => final(catalog)@ == (CatalogState {
                    file_chunks: known.file_chunks.push(
                        FileChunkFact { file: file_id, hash: hash@, order: order as u64 },
                    ),
                    ..known
                }),
                Err(e) => {
                    &&& final(catalog)@ == known
                    &&& e is DatabaseError
                    &&& e.detail() == if taken {
                        "UNIQUE constraint failed: FileChunks.file_object_id, FileChunks.chunk_order"@
                    } else {
                        "FOREIGN KEY constraint failed"@
                    }
                },
            }
        }),
{
    match upload {
        Some((stored_len, chunk_len)) => {
            catalog.upsert_chunk(hash, stored_len, chunk_len);
        },
        None => {},
    }
    catalog.add_file_chunk(file_id, hash, order)
}

// --- Restore -------------------------------------------------------------------------------

/// Whether an object is written as a directory; the root of a restore. Block devices are written
/// like files.
pub fn root_is_directory(kind: ObjectType) -> (out: Result<bool, String>)
    ensures
        match out {
            Ok(dir) => kind != ObjectType::SystemFingerprint && (dir <==> kind
                == ObjectType::Directory),
            Err(m) => kind == ObjectType::SystemFingerprint && m@
                == "this snapshot's root object is a SystemFingerprint; restore it from the recovery environment, not the agent"@,
        },
{
    match kind {
        ObjectType::File => Ok(false),
        ObjectType::BlockDevice => Ok(false),
        ObjectType::Directory => Ok(true),
        ObjectType::SystemFingerprint => Err(
            copy_text(
                "this snapshot's root object is a SystemFingerprint; restore it from the recovery environment, not the agent",
            ),
        ),
    }
}

/// Whether an object is written as a directory; an entry of a directory.
pub fn child_is_directory(kind: ObjectType) -> (out: Result<bool, String>)
    ensures
        match out {
            Ok(dir) => kind != ObjectType::SystemFingerprint && (dir <==> kind
                == ObjectType::Directory),
            Err(m) => kind == ObjectType::SystemFingerprint && m@
                == "nested SystemFingerprint objects are not supported in file-tree restore"@,
        },
{
    match kind {
        ObjectType::File => Ok(false),
        ObjectType::BlockDevice => Ok(false),
        ObjectType::Directory => Ok(true),
        ObjectType::SystemFingerprint => Err(
            copy_text("nested SystemFingerprint objects are not supported in file-tree restore"),
        ),
    }
}

/// The chunk inside what the server sent, whatever its hash.
pub open spec fn downloaded_chunk(key: Seq<u8>, stored: Seq<u8>) -> Option<Seq<u8>> {
    if stored.len() < NONCE_LEN {
        None
    } else {
        match aes256gcm_open(key, stored.take(NONCE_LEN as int), stored.skip(NONCE_LEN as int)) {
            None => None,
            Some(code) => match decoded(code) {
                Err(_) => None,
                Ok(chunk) => Some(chunk),
            },
        }
    }
}

/// Decrypts and decodes a chunk that the server sent.
pub fn open_download(keys: &KeyManager, stored: &[u8]) -> (out: Result<Vec<u8>, LazarusError>)
    ensures
        match out {
            Ok(c) => downloaded_chunk(keys.repo_key(), stored@) == Some(c@),
            Err(e) => {
                &&& downloaded_chunk(keys.repo_key(), stored@) is None
                &&& if stored@.len() < NONCE_LEN {
                    e is EncryptionError && e.detail() == "Stored chunk too small"@
                } else {
                    match aes256gcm_open(
                        keys.repo_key(),
                        stored@.take(NONCE_LEN as int),
                        stored@.skip(NONCE_LEN as int),
                    ) {
                        None => e is EncryptionError && e.detail() == "Failed to decrypt data"@,
                        Some(code) => e is Storage && decoded(code) == Err::<Seq<u8>, _>(
                            e.detail(),
                        ),
                    }
                }
            },
        },
{
    if stored.len() < NONCE_LEN {
        return Err(LazarusError::EncryptionError(copy_text("Stored chunk too small")));
    }
    let nonce = copy_range(stored, 0, NONCE_LEN);
    let ciphertext = copy_range(stored, NONCE_LEN, stored.len());
    assert(nonce@ =~= stored@.take(NONCE_LEN as int));
    assert(ciphertext@ =~= stored@.skip(NONCE_LEN as int));
    let code = match keys.decrypt_data(ciphertext.as_slice(), nonce.as_slice()) {
        Ok(c) => c,
        Err(e) => {
            return Err(e);
        },
    };
    decode_chunk(code.as_slice())
}

/// What a backup put on the server comes back from it: the agent reads every chunk that a check
/// of its hash accepts, and reads the same.
pub proof fn good_chunks_are_read(key: Seq<u8>, hash: Seq<char>, stored: Seq<u8>)
    requires
        stored_chunk(key, hash, stored) is Some,
    ensures
        downloaded_chunk(key, stored) == stored_chunk(key, hash, stored),
{
}

/// How many of the objects are written as files.
pub open spec fn file_count(objects: Seq<(ObjectType, u64)>) -> nat
    decreases objects.len(),
{
    if objects.len() == 0 {
        0
    } else {
        file_count(objects.drop_last()) + match objects.last().0 {
            ObjectType::File => 1nat,
            ObjectType::BlockDevice => 1nat,
            _ => 0nat,
        }
    }
}

/// How many files and bytes a restore writes, from the kinds and sizes of the objects that its
/// root leads to.
pub fn estimate_restore_metrics(objects: &Vec<(ObjectType, u64)>) -> (out: (u64, u64))
    requires
        size_sum(objects@) <= u64::MAX,
    ensures
        out.0 == file_count(objects@),
        out.1 == size_sum(objects@),
{
    let mut files: u64 = 0;
    let mut i: usize = 0;
    assert(objects@.take(0) =~= Seq::<(ObjectType, u64)>::empty());
    while i < objects.len()
        invariant
            i <= objects@.len(),
            files <= i,
            files == file_count(objects@.take(i as int)),
        decreases objects@.len() - i,
    {
        assert(objects@.take(i as int + 1).drop_last() =~= objects@.take(i as int));
        match objects[i].0 {
            ObjectType::File => {
                files = files + 1;
            },
            ObjectType::BlockDevice => {
                files = files + 1;
            },
            ObjectType::Directory => {},
            ObjectType::SystemFingerprint => {},
        }
        i += 1;
    }
    assert(objects@.take(i as int) =~= objects@);
    (files, calculate_snapshot_size(objects))
}

/// How far a part of a whole has come, in percent, rounded down.
pub open spec fn percent_of(done: u64, total: u64) -> int {
    (if done < total {
        done as int
    } else {
        total as int
    }) * 100 / (total as int)
}

/// How far a restore has come.
#[derive(Debug, Clone, Copy, PartialEq, Eq, Structural)]
pub struct RestoreProgress {
    pub total_files: u64,
    pub total_bytes: u64,
    pub processed_files: u64,
    pub processed_bytes: u64,
}

fn percent(done: u64, total: u64) -> (out: i32)
    requires
        total > 0,
    ensures
        out == percent_of(done, total),
        0 <= out <= 100,
{
    let part: u64 = if done < total {
        done
    } else {
        total
    };
    proof {
        let p = part as int;
        let t = total as int;
        assert(0 <= p * 100 / t <= 100) by (nonlinear_arith)
            requires
                0 <= p <= t,
                0 < t,
        ;
    }
    ((part as u128) * 100 / (total as u128)) as i32
}

/// A number that does not go over the top.
pub open spec fn saturated(n: int) -> u64 {
    if n > u64::MAX {
        u64::MAX
    } else {
        n as u64
    }
}

impl RestoreProgress {
    pub fn new(total_files: u64, total_bytes: u64) -> (out: Self)
        ensures
            out == (RestoreProgress {
                total_files,
                total_bytes,
                processed_files: 0,
                processed_bytes: 0,
            }),
    {
        RestoreProgress { total_files, total_bytes, processed_files: 0, processed_bytes: 0 }
    }

    /// The percentage: of the bytes, or of the files where there are no bytes to write.
    pub open spec fn share(self) -> int {
        if self.total_bytes > 0 {
            percent_of(self.processed_bytes, self.total_bytes)
        } else if self.total_files > 0 {
            percent_of(self.processed_files, self.total_files)
        } else {
            100
        }
    }

    pub fn percent_complete(&self) -> (out: i32)
        ensures
            out == self.share(),
            0 <= out <= 100,
    {
        if self.total_bytes > 0 {
            percent(self.processed_bytes, self.total_bytes)
        } else if self.total_files > 0 {
            percent(self.processed_files, self.total_files)
        } else {
            100
        }
    }

    /// Counts a file, and gives the percentage, the bytes written and the bytes to write.
    pub fn record_file(&mut self, file_size: u64) -> (out: (i32, u64, u64))
        ensures
            *final(self) == (RestoreProgress {
                processed_files: saturated(old(self).processed_files + 1),
                processed_bytes: saturated(old(self).processed_bytes + file_size),
                ..*old(self)
            }),
            out.0 == final(self).share(),
            out.1 == final(self).processed_bytes,
            out.2 == final(self).total_bytes,
    {
        self.processed_files = self.processed_files.saturating_add(1);
        self.processed_bytes = self.processed_bytes.saturating_add(file_size);
        (self.percent_complete(), self.processed_bytes, self.total_bytes)
    }

    /// Counts everything that is left.
    pub fn finalize(&mut self) -> (out: (i32, u64, u64))
        ensures
            *final(self) == (RestoreProgress {
                processed_files: old(self).total_files,
                processed_bytes: old(self).total_bytes,
                ..*old(self)
            }),
            out == (100i32, old(self).total_bytes, old(self).total_bytes),
    {
        self.processed_files = self.total_files;
        self.processed_bytes = self.total_bytes;
        (100, self.processed_bytes, self.total_bytes)
    }
}

/// Progress stays between nothing and all, and never goes back as files are counted.
pub proof fn progress_moves_on(before: RestoreProgress, file_size: u64)
    ensures
        0 <= before.share() <= 100,
        ({
            let after = RestoreProgress {
                processed_files: saturated(before.processed_files + 1),
                processed_bytes: saturated(before.processed_bytes + file_size),
                ..before
            };
            before.share() <= after.share() <= 100
        }),
{
    let after = RestoreProgress {
        processed_files: saturated(before.processed_files + 1),
        processed_bytes: saturated(before.processed_bytes + file_size),
        ..before
    };
    if before.total_bytes > 0 {
        percent_grows(before.processed_bytes, after.processed_bytes, before.total_bytes);
    } else if before.total_files > 0 {
        percent_grows(before.processed_files, after.processed_files, before.total_files);
    }
}

proof fn percent_grows(a: u64, b: u64, total: u64)
    requires
        a <= b,
        0 < total,
    ensures
        0 <= percent_of(a, total) <= percent_of(b, total) <= 100,
{
    let p = if a < total {
        a as int
    } else {
        total as int
    };
    let q = if b < total {
        b as int
    } else {
        total as int
    };
    let t = total as int;
    assert(0 <= p * 100 / t <= q * 100 / t <= 100) by (nonlinear_arith)
        requires
            0 <= p <= q <= t,
            0 < t,
    ;
}

/// Once it is finalized, a restore is at a hundred percent.
pub proof fn finished_is_all(done: RestoreProgress)
    requires
        done.processed_files == done.total_files,
        done.processed_bytes == done.total_bytes,
    ensures
        done.share() == 100,
{
    if done.total_bytes > 0 {
        let t = done.total_bytes as int;
        assert(t * 100 / t == 100) by (nonlinear_arith)
            requires
                t > 0,
        ;
    } else if done.total_files > 0 {
        let t = done.total_files as int;
        assert(t * 100 / t == 100) by (nonlinear_arith)
            requires
                t > 0,
        ;
    }
}

// --- Verify --------------------------------------------------------------------------------

/// What a check of all chunks ends with.
pub fn verify_result(missing: u64, corrupted: u64) -> (out: Result<(), LazarusError>)
    ensures
        out is Ok <==> missing == 0 && corrupted == 0,
        out matches Err(e) ==> e is VerificationFailed && e.detail() == decimal(missing as nat)
            + " missing, "@ + decimal(corrupted as nat) + " corrupted"@,
{
    if missing > 0 || corrupted > 0 {
        let front = concat3(
            decimal_string(missing).as_str(),
            " missing, ",
            decimal_string(corrupted).as_str(),
        );
        return Err(LazarusError::VerificationFailed(concat2(front.as_str(), " corrupted")));
    }
    Ok(())
}

// --- Prune ---------------------------------------------------------------------------------

/// Whether some snapshot refers to the chunk directly.
pub open spec fn referenced(refs: Seq<RefFact>, hash: Seq<char>) -> bool {
    exists|i: int| 0 <= i < refs.len() && hash_from_hex(hash) == Some((#[trigger] refs[i]).hash@)
}

pub open spec fn not_referenced(refs: Seq<RefFact>) -> spec_fn(Seq<char>) -> bool {
    |hash: Seq<char>| !referenced(refs, hash)
}

fn is_referenced(dedup: &DedupTable, hash: &str) -> (out: bool)
    ensures
        out == referenced(dedup@, hash@),
{
    match hash_of_hex(to_chars(hash).as_slice()) {
        None => false,
        Some(bytes) => {
            let count: u64 = dedup.refcount(&bytes);
            proof {
                let rows = kept(dedup@, of_hash(bytes));
                if count > 0 {
                    assert(rows.contains(rows[0]));
                    kept_contains(dedup@, of_hash(bytes), rows[0]);
                    let i = choose|i: int| 0 <= i < dedup@.len() && dedup@[i] == rows[0];
                    assert(dedup@[i].hash@ == bytes@);
                }
                if referenced(dedup@, hash@) {
                    let i = choose|i: int|
                        0 <= i < dedup@.len() && hash_from_hex(hash@) == Some(
                            (#[trigger] dedup@[i]).hash@,
                        );
                    assert(dedup@[i].hash =~= bytes);
                    assert(dedup@.contains(dedup@[i]));
                    kept_contains(dedup@, of_hash(bytes), dedup@[i]);
                }
            }
            count > 0
        },
    }
}

/// The chunks that a prune takes: those that no kept snapshot needs and no snapshot refers to.
/// Where there is no snapshot it takes none.
pub open spec fn agent_reclaimable(
    state: CatalogState,
    refs: Seq<RefFact>,
    keep: Seq<Seq<char>>,
) -> Seq<Seq<char>> {
    if snapshot_list(state).len() == 0 {
        Seq::empty()
    } else {
        kept(reclaimable(state, keep), not_referenced(refs))
    }
}

/// The chunks that a prune takes at the given time.
pub fn select_reclaimable(
    catalog: &CatalogIndex,
    dedup: &DedupTable,
    keep_last: usize,
    keep_days: u64,
    now: u64,
) -> (out: Vec<String>)
    requires
        catalog.wf(),
        keep_days * 86_400 <= u64::MAX,
    ensures
        texts(out@) == agent_reclaimable(
            catalog@,
            dedup@,
            kept_ids(
                snapshot_list(catalog@),
                snapshot_list(catalog@).len(),
                keep_last,
                keep_days,
                now,
            ),
        ),
{
    let mut out: Vec<String> = Vec::new();
    if catalog.list_snapshots().len() == 0 {
        assert(texts(out@) =~= Seq::empty());
        return out;
    }
    let plan = plan_prune(catalog, keep_last, keep_days, now);
    let ghost list = texts(plan.reclaimable@);
    let ghost rule = not_referenced(dedup@);
    let mut i: usize = 0;
    assert(texts(out@) =~= kept(list.take(0), rule));
    while i < plan.reclaimable.len()
        invariant
            i <= plan.reclaimable@.len(),
            list == texts(plan.reclaimable@),
            rule == not_referenced(dedup@),
            texts(out@) == kept(list.take(i as int), rule),
        decreases plan.reclaimable@.len() - i,
    {
        proof {
            kept_step(list, rule, i as int);
        }
        if !is_referenced(dedup, plan.reclaimable[i].as_str()) {
            push_text(&mut out, plan.reclaimable[i].as_str());
        }
        i += 1;
    }
    assert(list.take(i as int) =~= list);
    out
}

/// A prune takes no chunk that a kept snapshot needs and none that a snapshot refers to. Where
/// there is a snapshot it takes every other chunk of the catalog.
pub proof fn needed_chunks_stay(
    state: CatalogState,
    refs: Seq<RefFact>,
    keep: Seq<Seq<char>>,
    hash: Seq<char>,
)
    ensures
        agent_reclaimable(state, refs, keep).contains(hash) <==> {
            &&& snapshot_list(state).len() > 0
            &&& chunk_hashes(state).contains(hash)
            &&& !live(state, keep, hash)
            &&& !referenced(refs, hash)
        },
{
    only_dead_chunks_are_reclaimed(state, keep, hash);
    kept_contains(reclaimable(state, keep), not_referenced(refs), hash);
}

// --- What the pieces promise -----------------------------------------------------------------

/// A parameter has the value that stands first under its name; without its name it has none.
pub proof fn parameters_have_their_first_value(
    parameters: Seq<(String, String)>,
    name: Seq<char>,
)
    ensures
        parameter(parameters, name) is None <==> forall|i: int|
            0 <= i < parameters.len() ==> (#[trigger] parameters[i]).0@ != name,
        parameter(parameters, name) matches Some(v) ==> exists|i: int|
            0 <= i < parameters.len() && (#[trigger] parameters[i]).0@ == name
                && parameters[i].1@ == v && forall|j: int|
                0 <= j < i ==> (#[trigger] parameters[j]).0@ != name,
{
    first_value(parameters, name, 0);
}

proof fn first_value(parameters: Seq<(String, String)>, name: Seq<char>, from: int)
    requires
        0 <= from <= parameters.len(),
        forall|j: int| 0 <= j < from ==> (#[trigger] parameters[j]).0@ != name,
    ensures
        parameter_from(parameters, name, from) is None <==> forall|i: int|
            0 <= i < parameters.len() ==> (#[trigger] parameters[i]).0@ != name,
        parameter_from(parameters, name, from) matches Some(v) ==> exists|i: int|
            0 <= i < parameters.len() && (#[trigger] parameters[i]).0@ == name
                && parameters[i].1@ == v && forall|j: int|
                0 <= j < i ==> (#[trigger] parameters[j]).0@ != name,
    decreases parameters.len() - from,
{
    if from < parameters.len() && parameters[from].0@ != name {
        first_value(parameters, name, from + 1);
    }
}

/// A number in decimal digits is taken as it is; where the parameter is missing or no number, the
/// usual one is taken.
pub proof fn numbers_are_taken_as_given(
    parameters: Seq<(String, String)>,
    name: Seq<char>,
    limit: nat,
    otherwise: nat,
    n: nat,
)
    ensures
        n <= limit && parameter(parameters, name) == Some(decimal(n)) ==> number_parameter(
            parameters,
            name,
            limit,
            otherwise,
        ) == n,
        n > limit && parameter(parameters, name) == Some(decimal(n)) ==> number_parameter(
            parameters,
            name,
            limit,
            otherwise,
        ) == otherwise,
        parameter(parameters, name) is None ==> number_parameter(
            parameters,
            name,
            limit,
            otherwise,
        ) == otherwise,
{
    numbers_read_back(n, limit);
}

/// Where a prune job does not say it, 5 snapshots and 30 days are kept, and nothing is spared.
pub proof fn usual_prune_jobs(parameters: Seq<(String, String)>)
    ensures
        DEFAULT_KEEP_LAST == 5,
        DEFAULT_KEEP_DAYS == 30,
        MAX_ATTEMPTS == 3,
        parameter(parameters, "dry_run"@) is None ==> !wants_dry_run(parameters),
        parameter(parameters, "dry_run"@) == Some("true"@) ==> wants_dry_run(parameters),
        parameter(parameters, "dry_run"@) == Some("1"@) ==> wants_dry_run(parameters),
        wants_dry_run(parameters) ==> parameter(parameters, "dry_run"@) == Some("true"@)
            || parameter(parameters, "dry_run"@) == Some("1"@),
{
}

/// A chunk goes to the server where the server said that it lacks it, and only there.
pub proof fn only_lacking_chunks_go(replies: Seq<(String, bool)>, i: int, hash: Seq<char>)
    ensures
        0 <= i < replies.len() && !replies[i].1 ==> lacks(replies, replies[i].0@),
        (forall|j: int| 0 <= j < replies.len() && (#[trigger] replies[j]).0@ == hash
            ==> replies[j].1) ==> !lacks(replies, hash),
{
}

/// What the agent downloads is read with the data key behind a nonce of 12 bytes, and decoded.
pub proof fn downloads_are_opened(key: Seq<u8>, stored: Seq<u8>, chunk: Seq<u8>)
    ensures
        downloaded_chunk(key, stored) == Some(chunk) <==> {
            &&& stored.len() >= 12
            &&& aes256gcm_open(key, stored.take(12), stored.skip(12)) matches Some(code)
            &&& decoded(code) == Ok::<_, Seq<char>>(chunk)
        },
{
}

/// Files and block devices are written as files; directories and fingerprints are not counted.
pub proof fn files_and_devices_are_counted(
    objects: Seq<(ObjectType, u64)>,
    kind: ObjectType,
    size: u64,
)
    ensures
        file_count(Seq::empty()) == 0,
        kind == ObjectType::File || kind == ObjectType::BlockDevice ==> file_count(
            objects.push((kind, size)),
        ) == file_count(objects) + 1,
        kind == ObjectType::Directory || kind == ObjectType::SystemFingerprint ==> file_count(
            objects.push((kind, size)),
        ) == file_count(objects),
{
    assert(objects.push((kind, size)).drop_last() =~= objects);
}

/// The percentage goes by the bytes where there are any, else by the files; it is the whole number
/// of hundredths that are done.
pub proof fn progress_is_a_percentage(p: RestoreProgress)
    ensures
        p.total_bytes > 0 && p.processed_bytes <= p.total_bytes ==> {
            &&& p.share() * p.total_bytes <= p.processed_bytes * 100
            &&& p.processed_bytes * 100 < (p.share() + 1) * p.total_bytes
        },
        p.total_bytes == 0 && p.total_files > 0 && p.processed_files <= p.total_files ==> {
            &&& p.share() * p.total_files <= p.processed_files * 100
            &&& p.processed_files * 100 < (p.share() + 1) * p.total_files
        },
        p.total_bytes == 0 && p.total_files == 0 ==> p.share() == 100,
        p.total_bytes > 0 && p.processed_bytes > p.total_bytes ==> p.share() == 100,
{
    if p.total_bytes > 0 {
        hundredths(p.processed_bytes, p.total_bytes);
    } else if p.total_files > 0 {
        hundredths(p.processed_files, p.total_files);
    }
}

proof fn hundredths(done: u64, total: u64)
    requires
        total > 0,
    ensures
        done <= total ==> percent_of(done, total) * total <= done * 100 && done * 100 < (percent_of(
            done,
            total,
        ) + 1) * total,
        done > total ==> percent_of(done, total) == 100,
{
    let d = done as int;
    let t = total as int;
    assert((d * 100 / t) * t <= d * 100 && d * 100 < (d * 100 / t + 1) * t) by (nonlinear_arith)
        requires
            t > 0,
            d >= 0,
    ;
    assert(t * 100 / t == 100) by (nonlinear_arith)
        requires
            t > 0,
    ;
}

/// A reference keeps a chunk whose hexadecimal hash it has.
pub proof fn references_keep_their_chunk(refs: Seq<RefFact>, i: int)
    requires
        0 <= i < refs.len(),
    ensures
        referenced(refs, hex_text(refs[i].hash@)),
{
    hash_hex_round_trip(refs[i].hash);
}

/// Without a snapshot in the catalog an agent reclaims nothing.
pub proof fn empty_catalogs_reclaim_nothing(
    state: CatalogState,
    refs: Seq<RefFact>,
    keep: Seq<Seq<char>>,
)
    requires
        state.snapshots.len() == 0,
    ensures
        agent_reclaimable(state, refs, keep).len() == 0,
{
    snapshots_listed_newest_first(state);
}

/// A chunk that went up enters the catalog with the sizes that it has there; one that the server
/// had changes nothing.
pub proof fn only_uploads_enter_the_catalog(
    state: CatalogState,
    hash: Seq<char>,
    stored_len: usize,
    chunk_len: usize,
)
    ensures
        with_upload(state, hash, None) == state,
        with_upload(state, hash, Some((stored_len, chunk_len))) == with_chunk(
            state,
            hash,
            stored_len as nat,
            chunk_len,
        ),
{
}

} // verus!
