//! What several commands need of snapshots: their metadata and their size.
use crate::catalog::index::ObjectType;
use crate::encryption::key_manager::KeyManager;
use crate::error::LazarusError;
use crate::primitives::aes256gcm_seal;
use crate::primitives::drawn;
use crate::primitives::PLAINTEXT_MAX;
use crate::storage::chunks::blob_text;
use crate::storage::chunks::open_text;
use crate::storage::chunks::seal_text;
use crate::storage::chunks::NONCE_LEN;
use vstd::prelude::*;
use vstd::utf8::encode_utf8;

verus! {

/// What the metadata of a snapshot says of where it was taken.
#[derive(Debug)]
pub struct SnapshotMetadataRecord {
    pub source: Option<String>,
    pub hostname: Option<String>,
}

/// Encrypts the metadata of a snapshot; the nonce stands in front of the ciphertext.
pub fn encrypt_snapshot_metadata(key_manager: &KeyManager, metadata_json: &str) -> (out: Result<
    Vec<u8>,
    LazarusError,
>)
    ensures
        out is Ok <==> encode_utf8(metadata_json@).len() <= PLAINTEXT_MAX,
        match out {
            Ok(blob) => {
                &&& blob@.len() >= NONCE_LEN
                &&& drawn(blob@.take(12))
                &&& blob@.skip(NONCE_LEN as int) == aes256gcm_seal(
                    key_manager.metadata_key(),
                    blob@.take(NONCE_LEN as int),
                    encode_utf8(metadata_json@),
                )
                &&& snapshot_json(key_manager.metadata_key(), blob@) == Some(
                    encode_utf8(metadata_json@),
                )
            },
            Err(e) => e is EncryptionError && e.detail() == "Failed to encrypt metadata"@,
        },
{
    seal_text(key_manager, metadata_json)
}

/// The metadata of a snapshot as JSON bytes, where it can be read. A blob that is too short for a
/// nonce was never encrypted; an empty one is no metadata.
pub open spec fn snapshot_json(key: Seq<u8>, blob: Seq<u8>) -> Option<Seq<u8>> {
    if blob.len() == 0 {
        None
    } else if blob.len() < NONCE_LEN {
        Some(blob)
    } else {
        match blob_text(key, blob) {
            Ok(text) => Some(encode_utf8(text)),
            Err(_) => None,
        }
    }
}

/// The metadata of a snapshot as JSON bytes, where it can be read.
pub fn decrypt_snapshot_metadata(key_manager: &KeyManager, blob: &[u8]) -> (out: Option<Vec<u8>>)
    ensures
        out is Some <==> snapshot_json(key_manager.metadata_key(), blob@) is Some,
        out matches Some(json) ==> snapshot_json(key_manager.metadata_key(), blob@) == Some(json@),
{
    if blob.len() == 0 {
        return None;
    }
    if blob.len() < NONCE_LEN {
        return Some(vstd::slice::slice_to_vec(blob));
    }
    match open_text(key_manager, blob) {
        Ok(text) => Some(vstd::slice::slice_to_vec(text.as_str().as_bytes())),
        Err(_) => None,
    }
}

/// What an object adds to the size of a snapshot: files and block devices count with their size.
pub open spec fn counted_size(kind: ObjectType, size: u64) -> int {
    match kind {
        ObjectType::File => size as int,
        ObjectType::BlockDevice => size as int,
        ObjectType::Directory => 0,
        ObjectType::SystemFingerprint => 0,
    }
}

/// The size of a snapshot from the kinds and sizes of its objects.
pub open spec fn size_sum(objects: Seq<(ObjectType, u64)>) -> int
    decreases objects.len(),
{
    if objects.len() == 0 {
        0
    } else {
        size_sum(objects.drop_last()) + counted_size(objects.last().0, objects.last().1)
    }
}

proof fn size_sum_grows(objects: Seq<(ObjectType, u64)>, i: int)
    requires
        0 <= i <= objects.len(),
    ensures
        size_sum(objects.take(i)) <= size_sum(objects),
    decreases objects.len() - i,
{
    if i < objects.len() {
        assert(objects.take(i + 1).drop_last() =~= objects.take(i));
        size_sum_grows(objects, i + 1);
    } else {
        assert(objects.take(i) =~= objects);
    }
}

/// The size of a snapshot from the kinds and sizes of the objects that its root leads to.
pub fn calculate_snapshot_size(objects: &Vec<(ObjectType, u64)>) -> (total: u64)
    requires
        size_sum(objects@) <= u64::MAX,
    ensures
        total == size_sum(objects@),
{
    let mut total: u64 = 0;
    let mut i: usize = 0;
    assert(objects@.take(0) =~= Seq::<(ObjectType, u64)>::empty());
    while i < objects.len()
        invariant
            i <= objects@.len(),
            total == size_sum(objects@.take(i as int)),
            size_sum(objects@) <= u64::MAX,
        decreases objects@.len() - i,
    {
        let (kind, size) = objects[i];
        proof {
            assert(objects@.take(i as int + 1).drop_last() =~= objects@.take(i as int));
            size_sum_grows(objects@, i as int + 1);
        }
        let counted: u64 = match kind {
            ObjectType::File => size,
            ObjectType::BlockDevice => size,
            ObjectType::Directory => 0,
            ObjectType::SystemFingerprint => 0,
        };
        total = total + counted;
        i += 1;
    }
    assert(objects@.take(i as int) =~= objects@);
    total
}

/// Files and block devices add their size, directories and fingerprints nothing.
pub proof fn files_and_devices_have_size(
    objects: Seq<(ObjectType, u64)>,
    kind: ObjectType,
    size: u64,
)
    ensures
        size_sum(Seq::empty()) == 0,
        kind == ObjectType::File || kind == ObjectType::BlockDevice ==> size_sum(
            objects.push((kind, size)),
        ) == size_sum(objects) + size,
        kind == ObjectType::Directory || kind == ObjectType::SystemFingerprint ==> size_sum(
            objects.push((kind, size)),
        ) == size_sum(objects),
{
    assert(objects.push((kind, size)).drop_last() =~= objects);
}

/// Metadata that is too short for a nonce of 12 bytes was never encrypted, and stands for itself.
pub proof fn short_metadata_is_plain(key: Seq<u8>, blob: Seq<u8>)
    ensures
        blob.len() == 0 ==> snapshot_json(key, blob) is None,
        0 < blob.len() < 12 ==> snapshot_json(key, blob) == Some(blob),
{
}

} // verus!
