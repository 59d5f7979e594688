//! Restoring snapshots: what is restored where, and what is checked on the way.
use crate::bytes::same_bytes;
use crate::catalog::index::snapshot_key;
use crate::catalog::index::CatalogIndex;
use crate::catalog::index::ObjectType;
use crate::catalog::rows::row_of;
use crate::commands::backup::MANIFEST_VERSION;
use crate::commands::snapshot_utils::decrypt_snapshot_metadata;
use crate::commands::snapshot_utils::snapshot_json;
use crate::encryption::key_manager::KeyManager;
use crate::error::LazarusError;
use crate::primitives::find_json_number;
use crate::primitives::json_number;
use crate::storage::chunks::blob_text;
use crate::storage::chunks::open_text;
use crate::storage::chunks::NONCE_LEN;
use crate::text::concat2;
use crate::text::concat3;
use crate::text::copy_text;
use crate::text::decimal;
use crate::text::decimal_string;
use vstd::prelude::*;

verus! {

/// What the user asked to restore.
pub struct RestoreArgs {
    pub snapshot: Option<String>,
    pub destination: Option<String>,
    /// A raw device, or an existing file, for a block snapshot.
    pub device: Option<String>,
    /// Whether a block snapshot may replace an existing file.
    pub allow_overwrite: bool,
    /// Whether the restored data is read back and compared.
    pub verify: bool,
    pub repository: String,
    pub password: String,
}

/// How a snapshot is restored.
#[derive(Debug, Clone, Copy, PartialEq, Eq, Structural)]
pub enum RestoreKind {
    File,
    Directory,
    Block,
}

/// Where a snapshot starts.
pub struct RestoreRoot {
    pub object_id: i64,
    pub object_type: ObjectType,
    pub object_metadata: Vec<u8>,
    pub snapshot_metadata: Vec<u8>,
}

/// Looks up the root object of a snapshot.
pub fn restore_root(catalog: &CatalogIndex, snapshot_id: &str) -> (out: Result<
    RestoreRoot,
    LazarusError,
>)
    requires
        catalog.wf(),
    ensures
        out is Ok <==> catalog@.has_snapshot(snapshot_id@),
        match out {
            Ok(root) => {
                let fact = row_of(catalog@.snapshots, snapshot_key(), snapshot_id@);
                &&& root.object_id == fact.root
                &&& root.snapshot_metadata@ == fact.metadata
                &&& root.object_type == catalog@.object(fact.root).kind
                &&& root.object_metadata@ == catalog@.object(fact.root).metadata
            },
            Err(e) => e is Storage && e.detail() == "Snapshot '"@ + snapshot_id@ + "' not found"@,
        },
{
    match catalog.get_snapshot(snapshot_id) {
        None => Err(LazarusError::Storage(concat3("Snapshot '", snapshot_id, "' not found"))),
        Some((object_id, snapshot_metadata)) => match catalog.get_object(object_id) {
            None => Err(LazarusError::Storage(copy_text("Root object not found"))),
            Some((object_type, object_metadata)) => Ok(
                RestoreRoot { object_id, object_type, object_metadata, snapshot_metadata },
            ),
        },
    }
}

/// How an object is restored. A device can be given for a block snapshot only; the fingerprint of
/// a system is not restored.
pub fn restore_kind(object_type: ObjectType, device_given: bool) -> (out: Result<
    RestoreKind,
    LazarusError,
>)
    ensures
        match object_type {
            ObjectType::File => device_given <==> out is Err,
            ObjectType::Directory => device_given <==> out is Err,
            ObjectType::BlockDevice => out is Ok,
            ObjectType::SystemFingerprint => out is Err,
        },
        match out {
            Ok(kind) => kind == match object_type {
                ObjectType::File => RestoreKind::File,
                ObjectType::Directory => RestoreKind::Directory,
                _ => RestoreKind::Block,
            },
            Err(e) => e is Storage && e.detail() == if object_type
                == ObjectType::SystemFingerprint {
                "this snapshot's root object is a SystemFingerprint; use `lazarus-cli system-snapshot --show` to inspect it"@
            } else {
                "--device is only valid when restoring a block-mode snapshot"@
            },
        },
{
    match object_type {
        ObjectType::BlockDevice => Ok(RestoreKind::Block),
        ObjectType::SystemFingerprint => Err(
            LazarusError::Storage(
                copy_text(
                    "this snapshot's root object is a SystemFingerprint; use `lazarus-cli system-snapshot --show` to inspect it",
                ),
            ),
        ),
        ObjectType::File => if device_given {
            Err(device_not_allowed())
        } else {
            Ok(RestoreKind::File)
        },
        ObjectType::Directory => if device_given {
            Err(device_not_allowed())
        } else {
            Ok(RestoreKind::Directory)
        },
    }
}

fn device_not_allowed() -> (e: LazarusError)
    ensures
        e is Storage,
        e.detail() == "--device is only valid when restoring a block-mode snapshot"@,
{
    LazarusError::Storage(copy_text("--device is only valid when restoring a block-mode snapshot"))
}

/// Where a block snapshot goes: to the device or to the destination, of which exactly one is
/// given.
pub fn block_restore_target(args: &RestoreArgs) -> (out: Result<&str, LazarusError>)
    ensures
        out is Ok <==> (args.device is Some) != (args.destination is Some),
        match out {
            Ok(path) => path@ == if args.device is Some {
                args.device->0@
            } else {
                args.destination->0@
            },
            Err(e) => e is Storage && e.detail() == if args.device is Some {
                "--device and --destination are mutually exclusive for block-mode restore"@
            } else {
                "block-mode restore requires --device <PATH> or --destination <PATH>"@
            },
        },
{
    match &args.device {
        Some(device) => match &args.destination {
            Some(_) => Err(
                LazarusError::Storage(
                    copy_text(
                        "--device and --destination are mutually exclusive for block-mode restore",
                    ),
                ),
            ),
            None => Ok(device.as_str()),
        },
        None => match &args.destination {
            Some(destination) => Ok(destination.as_str()),
            None => Err(
                LazarusError::Storage(
                    copy_text("block-mode restore requires --device <PATH> or --destination <PATH>"),
                ),
            ),
        },
    }
}

/// Where the metadata of a block snapshot holds the version of its layout.
pub const MANIFEST_VERSION_PLACE: &'static str = "/capture/extras/manifest_version";

/// What is wrong with a block snapshot: it has to say where its chunks belong. The version is
/// what the metadata gives: nothing where it cannot be read, and no number where it has none.
pub open spec fn manifest_fault(version: Option<Option<u64>>) -> Option<Seq<char>> {
    match version {
        None => Some("block snapshot metadata is missing or unreadable"@),
        Some(Some(n)) if n >= MANIFEST_VERSION => None,
        _ => Some("block snapshot lacks a v2 extent manifest and cannot be restored safely"@),
    }
}

/// Whether a block snapshot says where its chunks belong.
pub fn check_manifest_version(manifest_version: Option<Option<u64>>) -> (out: Result<
    (),
    LazarusError,
>)
    ensures
        out is Ok <==> manifest_fault(manifest_version) is None,
        out matches Err(e) ==> e is Storage && manifest_fault(manifest_version) == Some(e.detail()),
{
    match manifest_version {
        None => Err(
            LazarusError::Storage(copy_text("block snapshot metadata is missing or unreadable")),
        ),
        Some(version) => {
            let number: u64 = match version {
                Some(n) => n,
                None => 0,
            };
            if number < MANIFEST_VERSION {
                Err(
                    LazarusError::Storage(
                        copy_text(
                            "block snapshot lacks a v2 extent manifest and cannot be restored safely",
                        ),
                    ),
                )
            } else {
                Ok(())
            }
        },
    }
}

/// The version of the layout that the metadata of a block snapshot gives.
pub open spec fn manifest_version(key: Seq<u8>, blob: Seq<u8>) -> Option<Option<u64>> {
    match snapshot_json(key, blob) {
        None => None,
        Some(json) => json_number(json, MANIFEST_VERSION_PLACE@),
    }
}

/// Whether the metadata of a block snapshot says that its layout tells where its chunks belong.
pub fn ensure_block_manifest_v2(keys: &KeyManager, snapshot_metadata: &[u8]) -> (out: Result<
    (),
    LazarusError,
>)
    ensures
        out is Ok <==> manifest_fault(
            manifest_version(keys.metadata_key(), snapshot_metadata@),
        ) is None,
        out matches Err(e) ==> e is Storage && manifest_fault(
            manifest_version(keys.metadata_key(), snapshot_metadata@),
        ) == Some(e.detail()),
{
    let version = match decrypt_snapshot_metadata(keys, snapshot_metadata) {
        None => None,
        Some(json) => find_json_number(json.as_slice(), MANIFEST_VERSION_PLACE),
    };
    check_manifest_version(version)
}

/// Whether a block snapshot may be written to the target: a device must exist, and a file must
/// not, unless it may be replaced.
pub fn check_block_target(
    target: &str,
    target_is_device: bool,
    present: bool,
    allow_overwrite: bool,
) -> (out: Result<(), LazarusError>)
    ensures
        out is Ok <==> if target_is_device {
            present
        } else {
            !present || allow_overwrite
        },
        out matches Err(e) ==> e is Storage && e.detail() == if target_is_device {
            "target device "@ + target@ + " does not exist"@
        } else {
            "destination "@ + target@ + " already exists; pass --allow-overwrite to replace it"@
        },
{
    if target_is_device {
        if !present {
            return Err(
                LazarusError::Storage(concat3("target device ", target, " does not exist")),
            );
        }
    } else if present && !allow_overwrite {
        return Err(
            LazarusError::Storage(
                concat3(
                    "destination ",
                    target,
                    " already exists; pass --allow-overwrite to replace it",
                ),
            ),
        );
    }
    Ok(())
}

/// Whether a device is large enough for a backup.
pub fn check_target_size(target: &str, target_size: u64, backup_size: u64) -> (out: Result<
    (),
    LazarusError,
>)
    ensures
        out is Ok <==> target_size >= backup_size,
        out matches Err(e) ==> e is Storage && e.detail() == "target device "@ + target@ + " is "@
            + decimal(target_size as nat) + " byte(s), smaller than backup size "@ + decimal(
            backup_size as nat,
        ),
{
    if target_size < backup_size {
        let a = concat3("target device ", target, " is ");
        let b = concat3(
            a.as_str(),
            decimal_string(target_size).as_str(),
            " byte(s), smaller than backup size ",
        );
        Err(LazarusError::Storage(concat2(b.as_str(), decimal_string(backup_size).as_str())))
    } else {
        Ok(())
    }
}

/// The size of a target: the length of a regular file, or the end of a device, which must not
/// be 0.
pub fn file_or_device_size(path: &str, is_file: bool, size: u64) -> (out: Result<u64, LazarusError>)
    ensures
        out is Ok <==> is_file || size > 0,
        match out {
            Ok(n) => n == size,
            Err(e) => e is Storage && e.detail() == "could not determine size of "@ + path@,
        },
{
    if !is_file && size == 0 {
        Err(LazarusError::Storage(concat2("could not determine size of ", path)))
    } else {
        Ok(size)
    }
}

/// An entry of a directory that is restored.
pub struct RestoreEntry {
    pub name: String,
    pub object_type: ObjectType,
    pub object_metadata: Vec<u8>,
}

/// Opens an entry of a directory: its name and its object. An entry whose name is too short for a
/// nonce is passed over.
pub fn open_entry(
    keys: &KeyManager,
    catalog: &CatalogIndex,
    child_id: i64,
    encrypted_name: &[u8],
) -> (out: Result<Option<RestoreEntry>, LazarusError>)
    requires
        catalog.wf(),
    ensures
        out is Ok <==> encrypted_name@.len() < NONCE_LEN || (blob_text(
            keys.metadata_key(),
            encrypted_name@,
        ) is Ok && catalog@.has_object(child_id)),
        match out {
            Ok(None) => encrypted_name@.len() < NONCE_LEN,
            Ok(Some(entry)) => {
                &&& encrypted_name@.len() >= NONCE_LEN
                &&& blob_text(keys.metadata_key(), encrypted_name@) == Ok::<_, Seq<char>>(
                    entry.name@,
                )
                &&& entry.object_type == catalog@.object(child_id).kind
                &&& entry.object_metadata@ == catalog@.object(child_id).metadata
            },
            Err(e) => match blob_text(keys.metadata_key(), encrypted_name@) {
                Err(m) => e is EncryptionError && e.detail() == m,
                Ok(_) => e is Storage && e.detail() == "Child object not found"@,
            },
        },
{
    if encrypted_name.len() < NONCE_LEN {
        return Ok(None);
    }
    let name = match open_text(keys, encrypted_name) {
        Ok(n) => n,
        Err(e) => {
            return Err(e);
        },
    };
    match catalog.get_object(child_id) {
        None => Err(LazarusError::Storage(copy_text("Child object not found"))),
        Some((object_type, object_metadata)) => Ok(
            Some(RestoreEntry { name, object_type, object_metadata }),
        ),
    }
}

/// Whether an entry of a directory is a directory, or else a file. Other objects cannot be
/// restored inside a tree.
pub fn entry_is_directory(object_type: ObjectType) -> (out: Result<bool, LazarusError>)
    ensures
        out is Ok <==> object_type == ObjectType::File || object_type == ObjectType::Directory,
        match out {
            Ok(yes) => yes == (object_type == ObjectType::Directory),
            Err(e) => e is Storage && e.detail() == if object_type == ObjectType::BlockDevice {
                "nested block-device objects are not supported in file-tree restore"@
            } else {
                "nested SystemFingerprint objects are not supported in file-tree restore"@
            },
        },
{
    match object_type {
        ObjectType::File => Ok(false),
        ObjectType::Directory => Ok(true),
        ObjectType::BlockDevice => Err(
            LazarusError::Storage(
                copy_text("nested block-device objects are not supported in file-tree restore"),
            ),
        ),
        ObjectType::SystemFingerprint => Err(
            LazarusError::Storage(
                copy_text("nested SystemFingerprint objects are not supported in file-tree restore"),
            ),
        ),
    }
}

/// Compares a restored chunk of a file, or of a block device, with the chunk of the repository.
pub fn check_restored_chunk(block: bool, hash: &str, actual: &[u8], expected: &[u8]) -> (out:
    Result<(), LazarusError>)
    ensures
        out is Ok <==> actual@ == expected@,
        out matches Err(e) ==> e is VerificationFailed && e.detail() == (if block {
            "restored block target differs at chunk "@
        } else {
            "restored file differs at chunk "@
        }) + hash@,
{
    if same_bytes(actual, expected) {
        return Ok(());
    }
    let front = if block {
        "restored block target differs at chunk "
    } else {
        "restored file differs at chunk "
    };
    Err(LazarusError::VerificationFailed(concat2(front, hash)))
}

/// A modification time in seconds as the file system takes it.
pub fn file_time(mtime: u64) -> (out: i64)
    ensures
        out == if mtime > i64::MAX {
            i64::MAX as int
        } else {
            mtime as int
        },
{
    if mtime > i64::MAX as u64 {
        i64::MAX
    } else {
        mtime as i64
    }
}

/// A block snapshot is restored only with an extent manifest of version 2 or later.
pub proof fn only_manifests_are_restored(version: Option<Option<u64>>)
    ensures
        manifest_fault(version) is None <==> (version matches Some(Some(n)) && n >= 2),
        version is None ==> manifest_fault(version) == Some(
            "block snapshot metadata is missing or unreadable"@,
        ),
        version is Some && (version->0 is None || version->0->0 < 2) ==> manifest_fault(version) == Some(
            "block snapshot lacks a v2 extent manifest and cannot be restored safely"@,
        ),
{
}

/// The version of the manifest is the number at its place in the metadata of the snapshot.
pub proof fn manifests_have_their_place(key: Seq<u8>, blob: Seq<u8>, json: Seq<u8>)
    ensures
        snapshot_json(key, blob) is None ==> manifest_version(key, blob) is None,
        snapshot_json(key, blob) == Some(json) ==> manifest_version(key, blob) == json_number(
            json,
            "/capture/extras/manifest_version"@,
        ),
        MANIFEST_VERSION == 2,
{
}

} // verus!
