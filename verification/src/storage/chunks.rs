//! How chunks and metadata lie in storage: encoded, encrypted, and behind their nonce.
use crate::bytes::append_bytes;
use crate::bytes::copy_range;
use crate::bytes::hex_digit;
use crate::bytes::hex_text;
use crate::bytes::hex_text_digits;
use crate::bytes::to_hex;
use crate::compression::adaptive::decode_chunk;
use crate::compression::adaptive::decoded;
use crate::compression::adaptive::encode_chunk;
use crate::compression::adaptive::encoded;
use crate::encryption::key_manager::metadata_text;
use crate::encryption::key_manager::KeyManager;
use crate::error::LazarusError;
use crate::primitives::aes256gcm_open;
use crate::primitives::aes256gcm_seal;
use crate::primitives::blake3_hash;
use crate::primitives::drawn;
use crate::primitives::hash_bytes;
use crate::primitives::text_of;
use crate::primitives::PLAINTEXT_MAX;
use crate::text::char_code;
use crate::text::concat2;
use crate::text::concat3;
use crate::text::copy_text;
use crate::text::from_chars;
use crate::text::same_text;
use crate::text::sub_chars;
use crate::text::to_chars;
use vstd::prelude::*;
use vstd::utf8::decode_utf8;
use vstd::utf8::encode_utf8;
use vstd::utf8::encode_utf8_decode_utf8;
use vstd::utf8::valid_utf8;

verus! {

/// The length of the nonce in front of everything that is encrypted.
pub const NONCE_LEN: usize = 12;

// --- Keys ----------------------------------------------------------------------------------

/// Whether the first two bytes of a text, in UTF-8, are whole characters.
pub open spec fn has_shard(name: Seq<char>) -> bool {
    ||| name.len() >= 2 && (name[0] as int) < 0x80 && (name[1] as int) < 0x80
    ||| name.len() >= 1 && 0x80 <= (name[0] as int) < 0x800
}

/// The characters in the first two bytes of a text.
pub open spec fn shard_of(name: Seq<char>) -> Seq<char> {
    if (name[0] as int) < 0x80 {
        name.take(2)
    } else {
        name.take(1)
    }
}

/// The storage key of a chunk: the chunks are spread over directories that are named by the
/// first two bytes of the hash.
pub open spec fn chunk_location(hash: Seq<char>) -> Seq<char> {
    shard_of(hash) + "/"@ + hash
}

/// Whether the first two bytes of a text, in UTF-8, are whole characters.
pub fn shardable(name: &str) -> (yes: bool)
    ensures
        yes == has_shard(name@),
{
    let chars = to_chars(name);
    if chars.len() == 0 {
        return false;
    }
    let n: u32 = char_code(chars[0]);
    if n >= 0x80 {
        return n < 0x800;
    }
    if chars.len() < 2 {
        return false;
    }
    char_code(chars[1]) < 0x80
}

/// The characters in the first two bytes of a text.
pub fn shard(name: &str) -> (out: String)
    requires
        has_shard(name@),
    ensures
        out@ == shard_of(name@),
{
    let chars = to_chars(name);
    let n: usize = if char_code(chars[0]) < 0x80 {
        2
    } else {
        1
    };
    let part = sub_chars(chars.as_slice(), 0, n);
    assert(part@ =~= shard_of(name@));
    from_chars(part.as_slice())
}

/// The storage key of a chunk.
pub fn chunk_key(hash: &str) -> (out: String)
    requires
        has_shard(hash@),
    ensures
        out@ == chunk_location(hash@),
{
    concat3(shard(hash).as_str(), "/", hash)
}

/// Every hash in hexadecimal digits has a storage key.
pub proof fn hashes_have_keys(h: [u8; 32])
    ensures
        has_shard(hex_text(h@)),
        (hex_text(h@)[0] as int) < 0x80,
{
    hex_text_digits(h@);
    let first = h@[0] as int;
    assert(hex_text(h@)[0] == hex_digit(first / 16));
    assert(hex_text(h@)[1] == hex_digit(first % 16));
}

/// Different chunks have different storage keys.
pub proof fn keys_tell_chunks_apart(a: [u8; 32], b: [u8; 32])
    requires
        chunk_location(hex_text(a@)) == chunk_location(hex_text(b@)),
    ensures
        hex_text(a@) == hex_text(b@),
{
    hashes_have_keys(a);
    hashes_have_keys(b);
    hex_text_digits(a@);
    hex_text_digits(b@);
    reveal_strlit("/");
    let x = hex_text(a@);
    let y = hex_text(b@);
    assert(chunk_location(x).skip(3) =~= x);
    assert(chunk_location(y).skip(3) =~= y);
}

// --- Chunks --------------------------------------------------------------------------------

/// The chunk inside what storage holds under its hash, where it is intact.
pub open spec fn stored_chunk(key: Seq<u8>, hash: Seq<char>, stored: Seq<u8>) -> Option<Seq<u8>> {
    if stored.len() < NONCE_LEN {
        None
    } else {
        match aes256gcm_open(key, stored.take(NONCE_LEN as int), stored.skip(NONCE_LEN as int)) {
            None => None,
            Some(code) => match decoded(code) {
                Err(_) => None,
                Ok(chunk) => if hex_text(blake3_hash(chunk)@) == hash {
                    Some(chunk)
                } else {
                    None
                },
            },
        }
    }
}

/// A chunk as it goes to storage.
pub struct SealedChunk {
    pub hash_hex: String,
    pub chunk_len: usize,
    pub stored_data: Vec<u8>,
}

/// Hashes, encodes and encrypts a chunk. `open_chunk` gives it back.
pub fn seal_chunk(keys: &KeyManager, chunk: &[u8]) -> (out: Result<SealedChunk, LazarusError>)
    ensures
        out is Ok <==> encoded(chunk@) is Ok && encoded(chunk@)->Ok_0.len() <= PLAINTEXT_MAX,
        match out {
            Ok(s) => {
                &&& s.hash_hex@ == hex_text(blake3_hash(chunk@)@)
                &&& s.chunk_len == chunk@.len()
                &&& s.stored_data@.len() >= NONCE_LEN
                &&& drawn(s.stored_data@.take(12))
                &&& s.stored_data@.skip(NONCE_LEN as int) == aes256gcm_seal(
                    keys.repo_key(),
                    s.stored_data@.take(NONCE_LEN as int),
                    encoded(chunk@)->Ok_0,
                )
                &&& stored_chunk(keys.repo_key(), s.hash_hex@, s.stored_data@) == Some(chunk@)
            },
            Err(e) => match encoded(chunk@) {
                Err(m) => e is Storage && e.detail() == m,
                Ok(_) => e is EncryptionError && e.detail() == "Failed to encrypt data"@,
            },
        },
{
    let hash = hash_bytes(chunk);
    let hash_hex = to_hex(hash.as_slice());
    let code = match encode_chunk(chunk) {
        Ok(c) => c,
        Err(e) => {
            return Err(e);
        },
    };
    match keys.encrypt_data(code.as_slice()) {
        Ok((ciphertext, nonce)) => {
            let mut stored_data = nonce;
            let ghost head = stored_data@;
            append_bytes(&mut stored_data, ciphertext.as_slice());
            assert(stored_data@.take(NONCE_LEN as int) =~= head);
            assert(stored_data@.skip(NONCE_LEN as int) =~= ciphertext@);
            Ok(SealedChunk { hash_hex, chunk_len: chunk.len(), stored_data })
        },
        Err(e) => Err(e),
    }
}

/// Decrypts, decodes and checks what storage holds under a hash.
pub fn open_chunk(keys: &KeyManager, hash: &str, stored: &[u8]) -> (out: Result<
    Vec<u8>,
    LazarusError,
>)
    ensures
        match out {
            Ok(c) => stored_chunk(keys.repo_key(), hash@, stored@) == Some(c@),
            Err(e) => {
                &&& stored_chunk(keys.repo_key(), hash@, stored@) is None
                &&& if stored@.len() < NONCE_LEN {
                    e is EncryptionError && e.detail() == "Stored chunk too small"@
                } else {
                    match aes256gcm_open(
                        keys.repo_key(),
                        stored@.take(NONCE_LEN as int),
                        stored@.skip(NONCE_LEN as int),
                    ) {
                        None => e is EncryptionError && e.detail() == "Failed to decrypt data"@,
                        Some(code) => match decoded(code) {
                            Err(m) => e is Storage && e.detail() == m,
                            Ok(c) => e is VerificationFailed && e.detail()
                                == "chunk hash mismatch: expected "@ + hash@ + ", got "@
                                + hex_text(blake3_hash(c)@),
                        },
                    }
                }
            },
        },
{
    if stored.len() < NONCE_LEN {
        return Err(LazarusError::EncryptionError(copy_text("Stored chunk too small")));
    }
    let nonce = copy_range(stored, 0, NONCE_LEN);
    let ciphertext = copy_range(stored, NONCE_LEN, stored.len());
    assert(nonce@ =~= stored@.take(NONCE_LEN as int));
    assert(ciphertext@ =~= stored@.skip(NONCE_LEN as int));
    let code = match keys.decrypt_data(ciphertext.as_slice(), nonce.as_slice()) {
        Ok(c) => c,
        Err(e) => {
            return Err(e);
        },
    };
    let chunk = match decode_chunk(code.as_slice()) {
        Ok(c) => c,
        Err(e) => {
            return Err(e);
        },
    };
    let calculated = to_hex(hash_bytes(chunk.as_slice()).as_slice());
    if !same_text(calculated.as_str(), hash) {
        let front = concat3("chunk hash mismatch: expected ", hash, ", got ");
        return Err(LazarusError::VerificationFailed(concat2(front.as_str(), calculated.as_str())));
    }
    Ok(chunk)
}

// --- Metadata ------------------------------------------------------------------------------

/// The text inside an encrypted blob that starts with its nonce, or the text of the error.
pub open spec fn blob_text(key: Seq<u8>, blob: Seq<u8>) -> Result<Seq<char>, Seq<char>> {
    metadata_text(key, blob.take(NONCE_LEN as int), blob.skip(NONCE_LEN as int))
}

/// Encrypts a text under the metadata key and puts the nonce in front of it.
pub fn seal_text(keys: &KeyManager, text: &str) -> (out: Result<Vec<u8>, LazarusError>)
    ensures
        out is Ok <==> encode_utf8(text@).len() <= PLAINTEXT_MAX,
        match out {
            Ok(blob) => {
                &&& blob@.len() >= NONCE_LEN
                &&& drawn(blob@.take(12))
                &&& blob@.skip(NONCE_LEN as int) == aes256gcm_seal(
                    keys.metadata_key(),
                    blob@.take(NONCE_LEN as int),
                    encode_utf8(text@),
                )
                &&& blob_text(keys.metadata_key(), blob@) == Ok::<_, Seq<char>>(text@)
            },
            Err(e) => e is EncryptionError && e.detail() == "Failed to encrypt metadata"@,
        },
{
    match keys.encrypt_metadata(text) {
        Ok((ciphertext, nonce)) => {
            let mut blob = nonce;
            let ghost head = blob@;
            append_bytes(&mut blob, ciphertext.as_slice());
            assert(blob@.take(NONCE_LEN as int) =~= head);
            assert(blob@.skip(NONCE_LEN as int) =~= ciphertext@);
            Ok(blob)
        },
        Err(e) => Err(e),
    }
}

/// Decrypts a text that `seal_text` encrypted.
pub fn open_text(keys: &KeyManager, blob: &[u8]) -> (out: Result<String, LazarusError>)
    requires
        blob@.len() >= NONCE_LEN,
    ensures
        match out {
            Ok(s) => blob_text(keys.metadata_key(), blob@) == Ok::<_, Seq<char>>(s@),
            Err(e) => e is EncryptionError && blob_text(keys.metadata_key(), blob@) == Err::<
                Seq<char>,
                _,
            >(e.detail()),
        },
{
    let nonce = copy_range(blob, 0, NONCE_LEN);
    let ciphertext = copy_range(blob, NONCE_LEN, blob.len());
    assert(nonce@ =~= blob@.take(NONCE_LEN as int));
    assert(ciphertext@ =~= blob@.skip(NONCE_LEN as int));
    keys.decrypt_metadata(ciphertext.as_slice(), nonce.as_slice())
}

/// The metadata text of an object, or the text of the error. A blob that is too short for a
/// nonce is text that was never encrypted.
pub open spec fn object_text(key: Seq<u8>, blob: Seq<u8>) -> Result<Seq<char>, Seq<char>> {
    if blob.len() < NONCE_LEN {
        if valid_utf8(blob) {
            Ok(decode_utf8(blob))
        } else {
            Err("Invalid metadata encoding"@)
        }
    } else {
        blob_text(key, blob)
    }
}

/// The metadata text of an object.
pub fn open_object_text(keys: &KeyManager, blob: &[u8]) -> (out: Result<String, LazarusError>)
    ensures
        match out {
            Ok(s) => object_text(keys.metadata_key(), blob@) == Ok::<_, Seq<char>>(s@),
            Err(e) => e is EncryptionError && object_text(keys.metadata_key(), blob@) == Err::<
                Seq<char>,
                _,
            >(e.detail()),
        },
{
    if blob.len() < NONCE_LEN {
        let bytes = vstd::slice::slice_to_vec(blob);
        match text_of(bytes) {
            Some(s) => {
                proof {
                    encode_utf8_decode_utf8(s@);
                }
                Ok(s)
            },
            None => Err(LazarusError::EncryptionError(copy_text("Invalid metadata encoding"))),
        }
    } else {
        open_text(keys, blob)
    }
}

/// The storage key of a hash: its first two digits, a slash, and all of it.
pub proof fn keys_of_hashes(h: [u8; 32])
    ensures
        ({
            let hash = hex_text(h@);
            &&& chunk_location(hash).len() == 67
            &&& chunk_location(hash)[0] == hash[0]
            &&& chunk_location(hash)[1] == hash[1]
            &&& chunk_location(hash)[2] == '/'
            &&& chunk_location(hash).skip(3) == hash
        }),
{
    hashes_have_keys(h);
    hex_text_digits(h@);
    reveal_strlit("/");
    let hash = hex_text(h@);
    assert(chunk_location(hash).skip(3) =~= hash);
}

/// What is read under a hash has that hash, and was encrypted under the key behind a nonce of 12
/// bytes.
pub proof fn chunks_have_their_hash(key: Seq<u8>, hash: Seq<char>, stored: Seq<u8>, chunk: Seq<u8>)
    ensures
        stored_chunk(key, hash, stored) == Some(chunk) <==> {
            &&& stored.len() >= 12
            &&& aes256gcm_open(key, stored.take(12), stored.skip(12)) matches Some(code)
            &&& decoded(code) == Ok::<_, Seq<char>>(chunk)
            &&& hex_text(blake3_hash(chunk)@) == hash
        },
{
}

/// The metadata of an object that is too short for a nonce of 12 bytes was never encrypted; what
/// is long enough is read with the key.
pub proof fn short_texts_are_plain(key: Seq<u8>, blob: Seq<u8>, text: Seq<char>)
    ensures
        blob.len() < 12 ==> (object_text(key, blob) == Ok::<_, Seq<char>>(text) <==> valid_utf8(
            blob,
        ) && decode_utf8(blob) == text),
        blob.len() >= 12 ==> (object_text(key, blob) == Ok::<_, Seq<char>>(text) <==> {
            &&& aes256gcm_open(key, blob.take(12), blob.skip(12)) matches Some(p)
            &&& valid_utf8(p)
            &&& decode_utf8(p) == text
        }),
{
}

} // verus!
