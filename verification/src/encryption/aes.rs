//! Chunk encryption with AES-256-GCM and a nonce derived from the chunk hash and the key epoch.
//!
//! The same chunk under the same key and epoch always gives the same bytes, so encrypted chunks
//! deduplicate. An encrypted chunk is a version byte, the epoch and the ciphertext; the nonce is
//! not stored.
use crate::bytes::append_bytes;
use crate::bytes::copy_range;
use crate::bytes::le32;
use crate::bytes::le32_injective;
use crate::bytes::le32_round_trip;
use crate::bytes::le32_value;
use crate::bytes::u32_from_le;
use crate::bytes::u32_to_le;
use crate::error::LazarusError;
use crate::primitives::aes256gcm_open;
use crate::primitives::aes256gcm_seal;
use crate::primitives::blake3_hash;
use crate::primitives::hash_bytes;
use crate::primitives::open;
use crate::primitives::seal;
use crate::primitives::PLAINTEXT_MAX;
use crate::text::copy_text;
use vstd::prelude::*;

verus! {

/// The version byte of an encrypted chunk.
pub const STREAMING_VERSION: u8 = 0x02;

/// The length of a nonce.
pub const NONCE_LEN: usize = 12;

/// The nonce for a chunk hash and a key epoch.
pub open spec fn chunk_nonce(chunk_hash: Seq<u8>, epoch: u32) -> Seq<u8> {
    blake3_hash(chunk_hash + le32(epoch))@.take(12)
}

/// The encrypted chunk.
pub open spec fn sealed_chunk(
    key: Seq<u8>,
    epoch: u32,
    chunk_hash: Seq<u8>,
    plaintext: Seq<u8>,
) -> Seq<u8> {
    seq![STREAMING_VERSION] + le32(epoch) + aes256gcm_seal(
        key,
        chunk_nonce(chunk_hash, epoch),
        plaintext,
    )
}

/// The chunk inside an encrypted chunk, where it can be decrypted. The epoch is the one that the
/// encrypted chunk names.
pub open spec fn opened_chunk(key: Seq<u8>, chunk_hash: Seq<u8>, framed: Seq<u8>) -> Option<
    Seq<u8>,
> {
    if framed.len() < 5 || framed[0] != STREAMING_VERSION {
        None
    } else {
        aes256gcm_open(
            key,
            chunk_nonce(chunk_hash, le32_value(framed.subrange(1, 5)) as u32),
            framed.skip(5),
        )
    }
}

/// Why an encrypted chunk cannot be decrypted.
pub open spec fn open_failure(framed: Seq<u8>) -> Seq<char> {
    if framed.len() < 5 {
        "Streaming chunk too short"@
    } else if framed[0] != STREAMING_VERSION {
        "Unrecognized chunk framing version"@
    } else {
        "AEAD decrypt failed"@
    }
}

/// The chunk inside an encrypted chunk of the older form: the nonce and the ciphertext.
pub open spec fn opened_legacy(key: Seq<u8>, framed: Seq<u8>) -> Option<Seq<u8>> {
    if framed.len() < 12 {
        None
    } else {
        aes256gcm_open(key, framed.take(12), framed.skip(12))
    }
}

/// Encrypted chunks of different epochs are never the same, whatever they hold.
pub proof fn epochs_diverge(
    key: Seq<u8>,
    other_key: Seq<u8>,
    epoch: u32,
    other_epoch: u32,
    hash: Seq<u8>,
    other_hash: Seq<u8>,
    plaintext: Seq<u8>,
    other_plaintext: Seq<u8>,
)
    requires
        epoch != other_epoch,
    ensures
        sealed_chunk(key, epoch, hash, plaintext) != sealed_chunk(
            other_key,
            other_epoch,
            other_hash,
            other_plaintext,
        ),
{
    let a = sealed_chunk(key, epoch, hash, plaintext);
    let b = sealed_chunk(other_key, other_epoch, other_hash, other_plaintext);
    if a == b {
        assert(a.subrange(1, 5) =~= le32(epoch));
        assert(b.subrange(1, 5) =~= le32(other_epoch));
        le32_injective(epoch, other_epoch);
    }
}

/// Which of the two forms an encrypted chunk has.
#[derive(Debug, Clone, Copy, PartialEq, Eq, Structural)]
pub enum ChunkFraming {
    /// The nonce and the ciphertext.
    Legacy,
    /// The version byte, the epoch and the ciphertext.
    Streaming,
}

/// Encrypts and decrypts chunks under one key.
pub struct StreamingEncryptor {
    key: [u8; 32],
    epoch: u32,
}

impl Clone for StreamingEncryptor {
    fn clone(&self) -> (out: Self)
        ensures
            out == *self,
    {
        StreamingEncryptor { key: self.key, epoch: self.epoch }
    }
}

fn derive_nonce(chunk_hash: &[u8; 32], key_epoch: u32) -> (nonce: Vec<u8>)
    ensures
        nonce@ == chunk_nonce(chunk_hash@, key_epoch),
        nonce@.len() == 12,
{
    let mut input: Vec<u8> = Vec::new();
    append_bytes(&mut input, chunk_hash.as_slice());
    append_bytes(&mut input, u32_to_le(key_epoch).as_slice());
    assert(input@ =~= chunk_hash@ + le32(key_epoch));
    let digest = hash_bytes(input.as_slice());
    let nonce = copy_range(digest.as_slice(), 0, NONCE_LEN);
    assert(nonce@ =~= chunk_nonce(chunk_hash@, key_epoch));
    nonce
}

impl StreamingEncryptor {
    /// The key.
    pub closed spec fn key(&self) -> Seq<u8> {
        self.key@
    }

    /// The epoch that new chunks get.
    pub closed spec fn key_epoch(&self) -> u32 {
        self.epoch
    }

    pub fn new(key: &[u8; 32]) -> (out: Self)
        ensures
            out.key() == key@,
            out.key_epoch() == 0,
    {
        StreamingEncryptor { key: *key, epoch: 0 }
    }

    /// The same key with another epoch.
    pub fn with_epoch(self, epoch: u32) -> (out: Self)
        ensures
            out.key() == self.key(),
            out.key_epoch() == epoch,
    {
        StreamingEncryptor { key: self.key, epoch }
    }

    pub fn epoch(&self) -> (out: u32)
        ensures
            out == self.key_epoch(),
    {
        self.epoch
    }

    /// Encrypts a chunk. Any encryptor with the same key decrypts the result, whatever its epoch.
    pub fn encrypt_chunk(&self, chunk_hash: &[u8; 32], plaintext: &[u8]) -> (out: Result<
        Vec<u8>,
        LazarusError,
    >)
        ensures
            out is Ok <==> plaintext@.len() <= PLAINTEXT_MAX,
            match out {
                Ok(framed) => {
                    &&& framed@ == sealed_chunk(
                        self.key(),
                        self.key_epoch(),
                        chunk_hash@,
                        plaintext@,
                    )
                    &&& opened_chunk(self.key(), chunk_hash@, framed@) == Some(plaintext@)
                },
                Err(e) => e is EncryptionError && e.detail() == "AEAD encrypt failed"@,
            },
    {
        let nonce = derive_nonce(chunk_hash, self.epoch);
        match seal(&self.key, nonce.as_slice(), plaintext) {
            None => Err(LazarusError::EncryptionError(copy_text("AEAD encrypt failed"))),
            Some(ct) => {
                let mut out: Vec<u8> = Vec::new();
                out.push(STREAMING_VERSION);
                append_bytes(&mut out, u32_to_le(self.epoch).as_slice());
                append_bytes(&mut out, ct.as_slice());
                proof {
                    assert(out@ =~= sealed_chunk(self.key@, self.epoch, chunk_hash@, plaintext@));
                    assert(out@.subrange(1, 5) =~= le32(self.epoch));
                    assert(out@.skip(5) =~= ct@);
                    le32_round_trip(self.epoch);
                }
                Ok(out)
            },
        }
    }

    /// Decrypts a chunk that `encrypt_chunk` made.
    pub fn decrypt_chunk(&self, chunk_hash: &[u8; 32], framed: &[u8]) -> (out: Result<
        Vec<u8>,
        LazarusError,
    >)
        ensures
            match out {
                Ok(p) => opened_chunk(self.key(), chunk_hash@, framed@) == Some(p@),
                Err(e) => {
                    &&& opened_chunk(self.key(), chunk_hash@, framed@) is None
                    &&& e is EncryptionError
                    &&& e.detail() == open_failure(framed@)
                },
            },
    {
        if framed.len() < 5 {
            return Err(LazarusError::EncryptionError(copy_text("Streaming chunk too short")));
        }
        if framed[0] != STREAMING_VERSION {
            return Err(
                LazarusError::EncryptionError(copy_text("Unrecognized chunk framing version")),
            );
        }
        let epoch: u32 = u32_from_le(framed, 1);
        let ct = copy_range(framed, 5, framed.len());
        assert(ct@ =~= framed@.skip(5));
        let nonce = derive_nonce(chunk_hash, epoch);
        match open(&self.key, nonce.as_slice(), ct.as_slice()) {
            Some(p) => Ok(p),
            None => Err(LazarusError::EncryptionError(copy_text("AEAD decrypt failed"))),
        }
    }

    /// Decrypts a chunk of the older form.
    pub fn decrypt_legacy(&self, framed: &[u8]) -> (out: Result<Vec<u8>, LazarusError>)
        ensures
            match out {
                Ok(p) => opened_legacy(self.key(), framed@) == Some(p@),
                Err(e) => {
                    &&& opened_legacy(self.key(), framed@) is None
                    &&& e is EncryptionError
                    &&& e.detail() == if framed@.len() < 12 {
                        "Legacy chunk too short"@
                    } else {
                        "Legacy AEAD decrypt failed"@
                    }
                },
            },
    {
        if framed.len() < NONCE_LEN {
            return Err(LazarusError::EncryptionError(copy_text("Legacy chunk too short")));
        }
        let nonce = copy_range(framed, 0, NONCE_LEN);
        let ct = copy_range(framed, NONCE_LEN, framed.len());
        assert(nonce@ =~= framed@.take(12));
        assert(ct@ =~= framed@.skip(12));
        match open(&self.key, nonce.as_slice(), ct.as_slice()) {
            Some(p) => Ok(p),
            None => Err(LazarusError::EncryptionError(copy_text("Legacy AEAD decrypt failed"))),
        }
    }

    /// Tells the two forms apart by the first byte.
    pub fn detect_framing(framed: &[u8]) -> (out: ChunkFraming)
        ensures
            out == (if framed@.len() > 0 && framed@[0] == STREAMING_VERSION {
                ChunkFraming::Streaming
            } else {
                ChunkFraming::Legacy
            }),
    {
        if framed.len() > 0 && framed[0] == STREAMING_VERSION {
            ChunkFraming::Streaming
        } else {
            ChunkFraming::Legacy
        }
    }
}

/// An encrypted chunk: the version byte 2, the epoch in four bytes with the lowest first, and the
/// ciphertext under the nonce of the chunk.
pub proof fn chunks_are_framed(key: Seq<u8>, epoch: u32, hash: Seq<u8>, plaintext: Seq<u8>)
    ensures
        ({
            let framed = sealed_chunk(key, epoch, hash, plaintext);
            &&& framed.len() >= 5
            &&& framed[0] == 2
            &&& framed[1] + 256 * framed[2] + 65536 * framed[3] + 16777216 * framed[4] == epoch
            &&& framed.skip(5) == aes256gcm_seal(key, chunk_nonce(hash, epoch), plaintext)
        }),
{
    le32_round_trip(epoch);
    let framed = sealed_chunk(key, epoch, hash, plaintext);
    assert(framed.skip(5) =~= aes256gcm_seal(key, chunk_nonce(hash, epoch), plaintext));
}

/// The nonce of a chunk is the front of the hash of the chunk's hash with the epoch behind it, so
/// that the same chunk is encrypted alike in one epoch.
pub proof fn nonces_come_from_hashes(hash: Seq<u8>, epoch: u32, input: Seq<u8>)
    requires
        input.len() == hash.len() + 4,
        input.take(hash.len() as int) == hash,
        input[hash.len() as int] + 256 * input[hash.len() as int + 1] + 65536 * input[hash.len() as int + 2]
            + 16777216 * input[hash.len() as int + 3] == epoch,
    ensures
        chunk_nonce(hash, epoch) == blake3_hash(input)@.take(12),
        chunk_nonce(hash, epoch).len() == 12,
{
    let n = hash.len() as int;
    le32_round_trip(epoch);
    let tail = seq![input[n], input[n + 1], input[n + 2], input[n + 3]];
    let b = le32(epoch);
    assert(b[0] == tail[0] && b[1] == tail[1] && b[2] == tail[2] && b[3] == tail[3]) by {
        let x = epoch as int;
        assert(x % 256 == input[n]);
        assert(x / 256 % 256 == input[n + 1]);
        assert(x / 65536 % 256 == input[n + 2]);
        assert(x / 16777216 % 256 == input[n + 3]);
    }
    assert(hash + b =~= input);
}

/// What lacks the version byte 2, or is too short for the frame, is not read as a chunk.
pub proof fn other_frames_are_refused(key: Seq<u8>, hash: Seq<u8>, framed: Seq<u8>)
    ensures
        framed.len() < 5 ==> opened_chunk(key, hash, framed) is None && open_failure(framed)
            == "Streaming chunk too short"@,
        framed.len() >= 5 && framed[0] != 2 ==> opened_chunk(key, hash, framed) is None
            && open_failure(framed) == "Unrecognized chunk framing version"@,
        framed.len() < 12 ==> opened_legacy(key, framed) is None,
        framed.len() >= 12 ==> opened_legacy(key, framed) == aes256gcm_open(
            key,
            framed.take(12),
            framed.skip(12),
        ),
{
}

} // verus!
