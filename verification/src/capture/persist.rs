//! Storing what was captured.
//!
//! The fingerprint and other large pieces are encrypted under the data key, secrets under the
//! metadata key. Both lie in storage under the hash of their plaintext, behind their nonce. A
//! header of a magic number and a version tells what a plaintext is.
use crate::bytes::append_bytes;
use crate::bytes::copy_range;
use crate::bytes::hex_text;
use crate::bytes::le32;
use crate::bytes::le32_round_trip;
use crate::bytes::le32_value;
use crate::bytes::same_bytes;
use crate::bytes::to_hex;
use crate::bytes::u32_from_le;
use crate::bytes::u32_to_le;
use crate::capture::system::FINGERPRINT_VERSION;
use crate::encryption::key_manager::KeyManager;
use crate::error::LazarusError;
use crate::primitives::aes256gcm_open;
use crate::primitives::aes256gcm_seal;
use crate::primitives::blake3_hash;
use crate::primitives::drawn;
use crate::primitives::hash_bytes;
use crate::primitives::PLAINTEXT_MAX;
use crate::snapshot::dedup::refers;
use crate::snapshot::dedup::with_reference;
use crate::snapshot::dedup::DedupTable;
use crate::storage::chunks::chunk_key;
use crate::storage::chunks::chunk_location;
use crate::storage::chunks::has_shard;
use crate::storage::chunks::hashes_have_keys;
use crate::storage::chunks::NONCE_LEN;
use crate::text::concat2;
use crate::text::concat3;
use crate::text::copy_text;
use crate::text::decimal;
use crate::text::decimal_string;
use vstd::prelude::*;

verus! {

// --- Headers -------------------------------------------------------------------------------

/// The magic number of a fingerprint, `LZFP`.
pub const MAGIC_FINGERPRINT: [u8; 4] = [0x4c, 0x5a, 0x46, 0x50];

/// The magic number of a secret, `LZBP`.
pub const MAGIC_SENSITIVE_BLOB: [u8; 4] = [0x4c, 0x5a, 0x42, 0x50];

/// How long a header is.
pub const HEADER_LEN: usize = 8;

/// A plaintext with its header.
pub open spec fn framed(magic: Seq<u8>, body: Seq<u8>) -> Seq<u8> {
    magic + le32(FINGERPRINT_VERSION) + body
}

/// Puts a header in front of a plaintext.
pub fn frame(magic: &[u8; 4], body: &[u8]) -> (out: Vec<u8>)
    ensures
        out@ == framed(magic@, body@),
{
    let mut out = vstd::slice::slice_to_vec(magic.as_slice());
    append_bytes(&mut out, u32_to_le(FINGERPRINT_VERSION).as_slice());
    append_bytes(&mut out, body);
    out
}

/// Bytes as a list in square brackets.
pub open spec fn byte_list(bytes: Seq<u8>) -> Seq<char> {
    "["@ + byte_items(bytes) + "]"@
}

/// Bytes in decimal digits with commas between them.
pub open spec fn byte_items(bytes: Seq<u8>) -> Seq<char>
    decreases bytes.len(),
{
    if bytes.len() == 0 {
        Seq::empty()
    } else if bytes.len() == 1 {
        decimal(bytes[0] as nat)
    } else {
        byte_items(bytes.drop_last()) + ", "@ + decimal(bytes.last() as nat)
    }
}

fn byte_list_text(bytes: &[u8]) -> (out: String)
    ensures
        out@ == byte_list(bytes@),
{
    let mut inner: String = String::new();
    let mut i: usize = 0;
    assert(bytes@.take(0) =~= Seq::<u8>::empty());
    while i < bytes.len()
        invariant
            i <= bytes@.len(),
            inner@ == byte_items(bytes@.take(i as int)),
        decreases bytes@.len() - i,
    {
        let n = decimal_string(bytes[i] as u64);
        assert(bytes@.take(i as int + 1).drop_last() =~= bytes@.take(i as int));
        if i == 0 {
            inner = n;
        } else {
            inner = concat3(inner.as_str(), ", ", n.as_str());
        }
        i += 1;
    }
    assert(bytes@.take(i as int) =~= bytes@);
    concat3("[", inner.as_str(), "]")
}

/// Why a plaintext has not the expected header, where it has not.
pub open spec fn header_fault(buf: Seq<u8>, magic: Seq<u8>, label: Seq<char>) -> Option<Seq<char>> {
    if buf.len() < HEADER_LEN {
        Some(label + " blob shorter than header"@)
    } else if buf.take(4) != magic {
        Some(
            label + " magic mismatch: got "@ + byte_list(buf.take(4)) + ", expected "@ + byte_list(
                magic,
            ),
        )
    } else if le32_value(buf.subrange(4, 8)) > FINGERPRINT_VERSION {
        Some(
            label + " version "@ + decimal(le32_value(buf.subrange(4, 8)) as nat)
                + " newer than supported "@ + decimal(FINGERPRINT_VERSION as nat),
        )
    } else {
        None
    }
}

/// Checks the header of a plaintext and takes it off.
pub fn strip_header(buf: &[u8], expected_magic: &[u8; 4], label: &str) -> (out: Result<
    Vec<u8>,
    LazarusError,
>)
    ensures
        out is Ok <==> header_fault(buf@, expected_magic@, label@) is None,
        match out {
            Ok(body) => body@ == buf@.skip(HEADER_LEN as int),
            Err(e) => e is VerificationFailed && header_fault(buf@, expected_magic@, label@)
                == Some(e.detail()),
        },
{
    if buf.len() < HEADER_LEN {
        return Err(
            LazarusError::VerificationFailed(concat2(label, " blob shorter than header")),
        );
    }
    let magic = copy_range(buf, 0, 4);
    assert(magic@ =~= buf@.take(4));
    if !same_bytes(magic.as_slice(), expected_magic.as_slice()) {
        let a = concat3(
            label,
            " magic mismatch: got ",
            byte_list_text(magic.as_slice()).as_str(),
        );
        let b = concat3(
            a.as_str(),
            ", expected ",
            byte_list_text(expected_magic.as_slice()).as_str(),
        );
        return Err(LazarusError::VerificationFailed(b));
    }
    let version: u32 = u32_from_le(buf, 4);
    if version > FINGERPRINT_VERSION {
        let a = concat3(label, " version ", decimal_string(version as u64).as_str());
        let b = concat3(
            a.as_str(),
            " newer than supported ",
            decimal_string(FINGERPRINT_VERSION as u64).as_str(),
        );
        return Err(LazarusError::VerificationFailed(b));
    }
    let body = copy_range(buf, HEADER_LEN, buf.len());
    assert(body@ =~= buf@.skip(HEADER_LEN as int));
    Ok(body)
}

/// A plaintext keeps its header's promise: what was framed has the expected header, and taking it
/// off gives the plaintext back.
pub proof fn frames_come_off(magic: [u8; 4], body: Seq<u8>, label: Seq<char>)
    ensures
        header_fault(framed(magic@, body), magic@, label) is None,
        framed(magic@, body).skip(HEADER_LEN as int) == body,
{
    let buf = framed(magic@, body);
    le32_round_trip(FINGERPRINT_VERSION);
    assert(buf.take(4) =~= magic@);
    assert(buf.subrange(4, 8) =~= le32(FINGERPRINT_VERSION));
    assert(buf.skip(HEADER_LEN as int) =~= body);
}

/// A fingerprint is not taken for a secret, nor a secret for a fingerprint.
pub proof fn frames_tell_apart(body: Seq<u8>, label: Seq<char>)
    ensures
        header_fault(framed(MAGIC_FINGERPRINT@, body), MAGIC_SENSITIVE_BLOB@, label) is Some,
        header_fault(framed(MAGIC_SENSITIVE_BLOB@, body), MAGIC_FINGERPRINT@, label) is Some,
{
    let a = framed(MAGIC_FINGERPRINT@, body);
    let b = framed(MAGIC_SENSITIVE_BLOB@, body);
    assert(a.take(4)[2] == 0x46);
    assert(b.take(4)[2] == 0x42);
    assert(MAGIC_SENSITIVE_BLOB@[2] == 0x42);
    assert(MAGIC_FINGERPRINT@[2] == 0x46);
}

// --- Storing -------------------------------------------------------------------------------

/// The storage key for a hash.
pub fn sharded_key(hex_hash: &str) -> (out: String)
    requires
        has_shard(hex_hash@),
    ensures
        out@ == chunk_location(hex_hash@),
{
    chunk_key(hex_hash)
}

/// Under which key something is encrypted.
#[derive(Debug, Clone, Copy, PartialEq, Eq, Structural)]
pub enum BufferedKind {
    DataKey,
    MetadataKey,
}

/// Something that would have been written.
#[derive(Debug)]
pub struct BufferedWrite {
    pub hex: String,
    pub kind: BufferedKind,
}

/// Something that has to be written to storage.
#[derive(Debug)]
pub struct PendingWrite {
    pub key: String,
    pub data: Vec<u8>,
}

/// Stores what was captured for a snapshot. A dry run only notes what would be written.
pub struct FingerprintPersister {
    pub snapshot_id: String,
    pub dry_run: bool,
    pub buffered: Vec<BufferedWrite>,
}

/// The key for a kind.
pub open spec fn key_for(keys: KeyManager, kind: BufferedKind) -> Seq<u8> {
    match kind {
        BufferedKind::DataKey => keys.repo_key(),
        BufferedKind::MetadataKey => keys.metadata_key(),
    }
}

/// The plaintext inside what storage holds, where it can be decrypted.
pub open spec fn opened(key: Seq<u8>, on_disk: Seq<u8>) -> Option<Seq<u8>> {
    if on_disk.len() < NONCE_LEN {
        None
    } else {
        aes256gcm_open(key, on_disk.take(NONCE_LEN as int), on_disk.skip(NONCE_LEN as int))
    }
}

/// What a persister does with a plaintext: it gives the hash and what has to be written under it,
/// or, in a dry run, notes the hash.
pub open spec fn persisted(
    before: FingerprintPersister,
    after: FingerprintPersister,
    keys: KeyManager,
    kind: BufferedKind,
    plaintext: Seq<u8>,
    out: Result<(String, Option<PendingWrite>), LazarusError>,
) -> bool {
    &&& after.snapshot_id == before.snapshot_id
    &&& after.dry_run == before.dry_run
    &&& out is Ok <==> before.dry_run || plaintext.len() <= PLAINTEXT_MAX
    &&& match out {
        Ok((hex, write)) => {
            &&& hex@ == hex_text(blake3_hash(plaintext)@)
            &&& write is None <==> before.dry_run
            &&& match write {
                Some(w) => {
                    &&& after.buffered@ == before.buffered@
                    &&& w.key@ == chunk_location(hex@)
                    &&& w.data@.len() >= NONCE_LEN
                    &&& drawn(w.data@.take(12))
                    &&& w.data@.skip(NONCE_LEN as int) == aes256gcm_seal(
                        key_for(keys, kind),
                        w.data@.take(NONCE_LEN as int),
                        plaintext,
                    )
                    &&& opened(key_for(keys, kind), w.data@) == Some(plaintext)
                },
                None => {
                    &&& after.buffered@.len() == before.buffered@.len() + 1
                    &&& after.buffered@.drop_last() == before.buffered@
                    &&& after.buffered@.last().hex@ == hex@
                    &&& after.buffered@.last().kind == kind
                },
            }
        },
        Err(e) => {
            &&& after.buffered@ == before.buffered@
            &&& e is EncryptionError
            &&& e.detail() == match kind {
                BufferedKind::DataKey => "Failed to encrypt data"@,
                BufferedKind::MetadataKey => "Failed to encrypt metadata"@,
            }
        },
    }
}

impl FingerprintPersister {
    pub fn new(snapshot_id: &str, dry_run: bool) -> (out: Self)
        ensures
            out.snapshot_id@ == snapshot_id@,
            out.dry_run == dry_run,
            out.buffered@.len() == 0,
    {
        FingerprintPersister { snapshot_id: copy_text(snapshot_id), dry_run, buffered: Vec::new() }
    }

    /// The hash of a plaintext, and what has to be written under it. A dry run writes nothing.
    fn persist(&mut self, keys: &KeyManager, kind: BufferedKind, plaintext: &[u8]) -> (out: Result<
        (String, Option<PendingWrite>),
        LazarusError,
    >)
        ensures
            persisted(*old(self), *final(self), *keys, kind, plaintext@, out),
    {
        let hash = hash_bytes(plaintext);
        let hex = to_hex(hash.as_slice());
        if self.dry_run {
            self.buffered.push(BufferedWrite { hex: copy_text(hex.as_str()), kind });
            assert(self.buffered@.drop_last() =~= old(self).buffered@);
            return Ok((hex, None));
        }
        let sealed = match kind {
            BufferedKind::DataKey => keys.encrypt_data(plaintext),
            BufferedKind::MetadataKey => keys.encrypt_metadata_bytes(plaintext),
        };
        match sealed {
            Ok((ciphertext, nonce)) => {
                let mut data = nonce;
                let ghost head = data@;
                append_bytes(&mut data, ciphertext.as_slice());
                assert(data@.take(NONCE_LEN as int) =~= head);
                assert(data@.skip(NONCE_LEN as int) =~= ciphertext@);
                proof {
                    hashes_have_keys(hash);
                }
                let key = sharded_key(hex.as_str());
                Ok((hex, Some(PendingWrite { key, data })))
            },
            Err(e) => Err(e),
        }
    }

    /// Stores a fingerprint, with its header, under the data key.
    pub fn persist_fingerprint(&mut self, keys: &KeyManager, body: &[u8]) -> (out: Result<
        (String, Option<PendingWrite>),
        LazarusError,
    >)
        ensures
            persisted(
                *old(self),
                *final(self),
                *keys,
                BufferedKind::DataKey,
                framed(MAGIC_FINGERPRINT@, body@),
                out,
            ),
    {
        let plaintext = frame(&MAGIC_FINGERPRINT, body);
        self.persist(keys, BufferedKind::DataKey, plaintext.as_slice())
    }

    /// Stores bytes as they are under the data key.
    pub fn persist_blob_data_key(&mut self, keys: &KeyManager, plaintext: &[u8]) -> (out: Result<
        (String, Option<PendingWrite>),
        LazarusError,
    >)
        ensures
            persisted(*old(self), *final(self), *keys, BufferedKind::DataKey, plaintext@, out),
    {
        self.persist(keys, BufferedKind::DataKey, plaintext)
    }

    /// Stores a secret, with its header, under the metadata key.
    pub fn persist_blob_metadata_key(&mut self, keys: &KeyManager, body: &[u8]) -> (out: Result<
        (String, Option<PendingWrite>),
        LazarusError,
    >)
        ensures
            persisted(
                *old(self),
                *final(self),
                *keys,
                BufferedKind::MetadataKey,
                framed(MAGIC_SENSITIVE_BLOB@, body@),
                out,
            ),
    {
        let plaintext = frame(&MAGIC_SENSITIVE_BLOB, body);
        self.persist(keys, BufferedKind::MetadataKey, plaintext.as_slice())
    }

    /// Notes that the snapshot uses a chunk that was stored.
    pub fn register_ref(&self, dedup: &mut DedupTable, hash: &[u8; 32])
        requires
            old(dedup).wf(),
        ensures
            final(dedup).wf(),
            refers(final(dedup)@, *hash, self.snapshot_id@),
            final(dedup)@ == with_reference(old(dedup)@, *hash, self.snapshot_id@),
    {
        dedup.add_reference(hash, self.snapshot_id.as_str());
    }
}

/// Decrypts what storage holds. The label names it in the error.
fn open_blob(keys: &KeyManager, kind: BufferedKind, on_disk: &[u8], short: &str) -> (out: Result<
    Vec<u8>,
    LazarusError,
>)
    ensures
        match out {
            Ok(p) => opened(key_for(*keys, kind), on_disk@) == Some(p@),
            Err(e) => {
                &&& opened(key_for(*keys, kind), on_disk@) is None
                &&& if on_disk@.len() < NONCE_LEN {
                    e is Storage && e.detail() == short@
                } else {
                    e is EncryptionError && e.detail() == match kind {
                        BufferedKind::DataKey => "Failed to decrypt data"@,
                        BufferedKind::MetadataKey => "Failed to decrypt metadata"@,
                    }
                }
            },
        },
{
    if on_disk.len() < NONCE_LEN {
        return Err(LazarusError::Storage(copy_text(short)));
    }
    let nonce = copy_range(on_disk, 0, NONCE_LEN);
    let ciphertext = copy_range(on_disk, NONCE_LEN, on_disk.len());
    assert(nonce@ =~= on_disk@.take(NONCE_LEN as int));
    assert(ciphertext@ =~= on_disk@.skip(NONCE_LEN as int));
    match kind {
        BufferedKind::DataKey => keys.decrypt_data(ciphertext.as_slice(), nonce.as_slice()),
        BufferedKind::MetadataKey => keys.decrypt_metadata_bytes(
            ciphertext.as_slice(),
            nonce.as_slice(),
        ),
    }
}

impl FingerprintPersister {
    /// The fingerprint inside what storage holds, still encoded.
    pub fn load_fingerprint(keys: &KeyManager, on_disk: &[u8]) -> (out: Result<Vec<u8>, LazarusError>)
        ensures
            match out {
                Ok(body) => {
                    &&& opened(keys.repo_key(), on_disk@) matches Some(p)
                    &&& header_fault(p, MAGIC_FINGERPRINT@, "fingerprint"@) is None
                    &&& body@ == p.skip(HEADER_LEN as int)
                },
                Err(e) => match opened(keys.repo_key(), on_disk@) {
                    Some(p) => e is VerificationFailed && header_fault(
                        p,
                        MAGIC_FINGERPRINT@,
                        "fingerprint"@,
                    ) == Some(e.detail()),
                    None => if on_disk@.len() < NONCE_LEN {
                        e is Storage && e.detail() == "fingerprint chunk too short to contain nonce"@
                    } else {
                        e is EncryptionError && e.detail() == "Failed to decrypt data"@
                    },
                },
            },
    {
        match open_blob(
            keys,
            BufferedKind::DataKey,
            on_disk,
            "fingerprint chunk too short to contain nonce",
        ) {
            Ok(p) => strip_header(p.as_slice(), &MAGIC_FINGERPRINT, "fingerprint"),
            Err(e) => Err(e),
        }
    }

    /// The secret inside what storage holds, still encoded.
    pub fn load_blob_metadata_key(keys: &KeyManager, on_disk: &[u8]) -> (out: Result<
        Vec<u8>,
        LazarusError,
    >)
        ensures
            match out {
                Ok(body) => {
                    &&& opened(keys.metadata_key(), on_disk@) matches Some(p)
                    &&& header_fault(p, MAGIC_SENSITIVE_BLOB@, "sensitive_blob"@) is None
                    &&& body@ == p.skip(HEADER_LEN as int)
                },
                Err(e) => match opened(keys.metadata_key(), on_disk@) {
                    Some(p) => e is VerificationFailed && header_fault(
                        p,
                        MAGIC_SENSITIVE_BLOB@,
                        "sensitive_blob"@,
                    ) == Some(e.detail()),
                    None => if on_disk@.len() < NONCE_LEN {
                        e is Storage && e.detail()
                            == "sensitive blob chunk too short to contain nonce"@
                    } else {
                        e is EncryptionError && e.detail() == "Failed to decrypt metadata"@
                    },
                },
            },
    {
        match open_blob(
            keys,
            BufferedKind::MetadataKey,
            on_disk,
            "sensitive blob chunk too short to contain nonce",
        ) {
            Ok(p) => strip_header(p.as_slice(), &MAGIC_SENSITIVE_BLOB, "sensitive_blob"),
            Err(e) => Err(e),
        }
    }
}

/// A stored fingerprint loads again as it was.
pub proof fn stored_fingerprints_load(
    before: FingerprintPersister,
    after: FingerprintPersister,
    keys: KeyManager,
    body: Seq<u8>,
    hex: String,
    write: PendingWrite,
)
    requires
        persisted(
            before,
            after,
            keys,
            BufferedKind::DataKey,
            framed(MAGIC_FINGERPRINT@, body),
            Ok((hex, Some(write))),
        ),
    ensures
        opened(keys.repo_key(), write.data@) matches Some(p) && header_fault(
            p,
            MAGIC_FINGERPRINT@,
            "fingerprint"@,
        ) is None && p.skip(HEADER_LEN as int) == body,
{
    frames_come_off(MAGIC_FINGERPRINT, body, "fingerprint"@);
}

/// A stored secret loads again as it was.
pub proof fn stored_secrets_load(
    before: FingerprintPersister,
    after: FingerprintPersister,
    keys: KeyManager,
    body: Seq<u8>,
    hex: String,
    write: PendingWrite,
)
    requires
        persisted(
            before,
            after,
            keys,
            BufferedKind::MetadataKey,
            framed(MAGIC_SENSITIVE_BLOB@, body),
            Ok((hex, Some(write))),
        ),
    ensures
        opened(keys.metadata_key(), write.data@) matches Some(p) && header_fault(
            p,
            MAGIC_SENSITIVE_BLOB@,
            "sensitive_blob"@,
        ) is None && p.skip(HEADER_LEN as int) == body,
{
    frames_come_off(MAGIC_SENSITIVE_BLOB, body, "sensitive_blob"@);
}

/// What is stored lies under the hash of its plaintext, behind a random nonce of 12 bytes: large
/// pieces under the data key, secrets under the metadata key. A dry run stores nothing.
pub proof fn pieces_lie_under_their_hash(
    before: FingerprintPersister,
    after: FingerprintPersister,
    keys: KeyManager,
    kind: BufferedKind,
    plaintext: Seq<u8>,
    hex: String,
    write: Option<PendingWrite>,
)
    requires
        persisted(before, after, keys, kind, plaintext, Ok((hex, write))),
    ensures
        hex@ == hex_text(blake3_hash(plaintext)@),
        write is None <==> before.dry_run,
        write matches Some(w) ==> {
            let key = if kind == BufferedKind::DataKey {
                keys.repo_key()
            } else {
                keys.metadata_key()
            };
            &&& w.key@ == chunk_location(hex@)
            &&& w.data@.len() >= 12
            &&& drawn(w.data@.take(12))
            &&& aes256gcm_open(key, w.data@.take(12), w.data@.skip(12)) == Some(plaintext)
        },
        write is Some ==> after.buffered@ == before.buffered@,
        write is None ==> {
            &&& after.buffered@.len() == before.buffered@.len() + 1
            &&& after.buffered@.drop_last() == before.buffered@
            &&& after.buffered@.last().hex@ == hex@
            &&& after.buffered@.last().kind == kind
        },
        after.snapshot_id == before.snapshot_id,
        after.dry_run == before.dry_run,
{
}

/// A header is the magic number, the version in four bytes with the lowest first, and then the
/// plaintext. What is too short, has another magic number or a later version is refused.
pub proof fn headers_are_checked(buf: Seq<u8>, magic: [u8; 4], label: Seq<char>, body: Seq<u8>)
    ensures
        framed(magic@, body).take(4) == magic@,
        framed(magic@, body).skip(8) == body,
        framed(magic@, body)[4] + 256 * framed(magic@, body)[5] + 65536 * framed(magic@, body)[6]
            + 16777216 * framed(magic@, body)[7] == FINGERPRINT_VERSION,
        header_fault(buf, magic@, label) is None <==> buf.len() >= 8 && buf.take(4) == magic@
            && buf[4] + 256 * buf[5] + 65536 * buf[6] + 16777216 * buf[7] <= FINGERPRINT_VERSION,
{
    let f = framed(magic@, body);
    le32_round_trip(FINGERPRINT_VERSION);
    assert(f.take(4) =~= magic@);
    assert(f.skip(8) =~= body);
    assert(f.subrange(4, 8) =~= le32(FINGERPRINT_VERSION));
    assert(f[4] == f.subrange(4, 8)[0] && f[5] == f.subrange(4, 8)[1]);
    assert(f[6] == f.subrange(4, 8)[2] && f[7] == f.subrange(4, 8)[3]);
}

/// The magic numbers are the letters `LZFP` and `LZBP`; the header has 8 bytes, and its version
/// is 1.
pub proof fn magic_numbers()
    ensures
        MAGIC_FINGERPRINT@ == seq![76u8, 90u8, 70u8, 80u8],
        MAGIC_SENSITIVE_BLOB@ == seq![76u8, 90u8, 66u8, 80u8],
        HEADER_LEN == 8,
        FINGERPRINT_VERSION == 1,
{
}

} // verus!
