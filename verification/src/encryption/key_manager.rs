//! The keys of a repository and how a password guards them.
//!
//! A repository has a key for its data and one for its metadata. Both are random; the repository
//! stores them encrypted under a key derived from the master password and a salt.
use crate::bytes::hash_at;
use crate::error::LazarusError;
use crate::primitives::accepts_salt;
use crate::primitives::aes256gcm_open;
use crate::primitives::aes256gcm_seal;
use crate::primitives::argon2_hash;
use crate::primitives::draw;
use crate::primitives::draw_salt;
use crate::primitives::drawn;
use crate::primitives::hash_password;
use crate::primitives::open;
use crate::primitives::salt_drawn;
use crate::primitives::salt_ok;
use crate::primitives::seal;
use crate::primitives::text_of;
use crate::primitives::PLAINTEXT_MAX;
use crate::text::concat2;
use crate::text::copy_text;
use vstd::prelude::*;
use vstd::utf8::decode_utf8;
use vstd::utf8::encode_utf8;
use vstd::utf8::encode_utf8_decode_utf8;
use vstd::utf8::encode_utf8_valid_utf8;
use vstd::utf8::valid_utf8;

verus! {

/// What a repository stores about its keys.
pub struct RepositoryConfig {
    /// The salt for deriving the master key.
    pub salt: String,
    /// The data key, encrypted under the master key.
    pub encrypted_repo_key: Vec<u8>,
    /// The metadata key, encrypted under the master key.
    pub encrypted_metadata_key: Vec<u8>,
    /// The nonce of the encrypted data key.
    pub repo_key_nonce: Vec<u8>,
    /// The nonce of the encrypted metadata key.
    pub metadata_key_nonce: Vec<u8>,
}

impl RepositoryConfig {
    /// Both nonces have the length that AES-GCM takes.
    pub open spec fn wf(&self) -> bool {
        self.repo_key_nonce@.len() == 12 && self.metadata_key_nonce@.len() == 12
    }
}

impl Clone for RepositoryConfig {
    fn clone(&self) -> (out: Self)
        ensures
            out.salt@ == self.salt@,
            out.encrypted_repo_key@ == self.encrypted_repo_key@,
            out.encrypted_metadata_key@ == self.encrypted_metadata_key@,
            out.repo_key_nonce@ == self.repo_key_nonce@,
            out.metadata_key_nonce@ == self.metadata_key_nonce@,
    {
        RepositoryConfig {
            salt: copy_text(self.salt.as_str()),
            encrypted_repo_key: vstd::slice::slice_to_vec(self.encrypted_repo_key.as_slice()),
            encrypted_metadata_key: vstd::slice::slice_to_vec(
                self.encrypted_metadata_key.as_slice(),
            ),
            repo_key_nonce: vstd::slice::slice_to_vec(self.repo_key_nonce.as_slice()),
            metadata_key_nonce: vstd::slice::slice_to_vec(self.metadata_key_nonce.as_slice()),
        }
    }
}

/// The master key for a password and a salt, or the text of the error.
pub open spec fn master_key(password: Seq<char>, salt: Seq<char>) -> Result<Seq<u8>, Seq<char>> {
    if !salt_ok(salt) {
        Err("Invalid salt"@)
    } else {
        match argon2_hash(encode_utf8(password), salt) {
            Err(m) => Err("Failed to hash password: "@ + m),
            Ok(None) => Err("No hash output"@),
            Ok(Some(h)) => if h.len() < 32 {
                Err("Hash too short"@)
            } else {
                Ok(h.take(32))
            },
        }
    }
}

/// The two keys that a password unlocks, or the text of the error.
pub open spec fn unlocked(password: Seq<char>, config: RepositoryConfig) -> Result<
    (Seq<u8>, Seq<u8>),
    Seq<char>,
> {
    match master_key(password, config.salt@) {
        Err(m) => Err(m),
        Ok(key) => {
            let repo = aes256gcm_open(key, config.repo_key_nonce@, config.encrypted_repo_key@);
            let meta = aes256gcm_open(
                key,
                config.metadata_key_nonce@,
                config.encrypted_metadata_key@,
            );
            if repo is None {
                Err("Failed to decrypt repository key - wrong password?"@)
            } else if meta is None {
                Err("Failed to decrypt metadata key"@)
            } else if repo->0.len() != 32 || meta->0.len() != 32 {
                Err("Invalid key length"@)
            } else {
                Ok((repo->0, meta->0))
            }
        },
    }
}

/// Whether every nonce that unlocking gets to has the length of a nonce: the first one once the
/// password gives a master key, the second one once that key opens the data key.
pub open spec fn nonces_fit(password: Seq<char>, config: RepositoryConfig) -> bool {
    match master_key(password, config.salt@) {
        Err(_) => true,
        Ok(key) => {
            &&& config.repo_key_nonce@.len() == 12
            &&& aes256gcm_open(key, config.repo_key_nonce@, config.encrypted_repo_key@) is Some
                ==> config.metadata_key_nonce@.len() == 12
        },
    }
}

/// The keys of an unlocked repository.
pub struct KeyManager {
    repo_key: [u8; 32],
    metadata_key: [u8; 32],
}

impl Clone for KeyManager {
    fn clone(&self) -> (out: Self)
        ensures
            out == *self,
    {
        KeyManager { repo_key: self.repo_key, metadata_key: self.metadata_key }
    }
}

fn derive_master_key(password: &str, salt: &str) -> (out: Result<[u8; 32], LazarusError>)
    ensures
        match out {
            Ok(k) => master_key(password@, salt@) == Ok::<_, Seq<char>>(k@),
            Err(e) => e is EncryptionError && master_key(password@, salt@) == Err::<Seq<u8>, _>(
                e.detail(),
            ),
        },
{
    if !accepts_salt(salt) {
        return Err(LazarusError::EncryptionError(copy_text("Invalid salt")));
    }
    match hash_password(password.as_bytes(), salt) {
        Err(m) => Err(
            LazarusError::EncryptionError(concat2("Failed to hash password: ", m.as_str())),
        ),
        Ok(None) => Err(LazarusError::EncryptionError(copy_text("No hash output"))),
        Ok(Some(h)) => {
            if h.len() < 32 {
                Err(LazarusError::EncryptionError(copy_text("Hash too short")))
            } else {
                assert(h@.subrange(0, 32) =~= h@.take(32));
                Ok(hash_at(h.as_slice(), 0))
            }
        },
    }
}

impl KeyManager {
    /// The data key.
    pub closed spec fn repo_key(&self) -> Seq<u8> {
        self.repo_key@
    }

    /// The metadata key.
    pub closed spec fn metadata_key(&self) -> Seq<u8> {
        self.metadata_key@
    }

    /// A manager for the given keys.
    pub fn from_keys(repo_key: [u8; 32], metadata_key: [u8; 32]) -> (out: Self)
        ensures
            out.repo_key() == repo_key@,
            out.metadata_key() == metadata_key@,
    {
        KeyManager { repo_key, metadata_key }
    }

    /// Encrypts the keys under a password with the given salt and nonces. The result unlocks with
    /// that password, and gives these keys.
    pub fn wrap_keys(
        &self,
        master_password: &str,
        salt: &str,
        repo_key_nonce: &[u8],
        metadata_key_nonce: &[u8],
    ) -> (out: Result<RepositoryConfig, LazarusError>)
        requires
            repo_key_nonce@.len() == 12,
            metadata_key_nonce@.len() == 12,
        ensures
            match (out, master_key(master_password@, salt@)) {
                (Ok(config), Ok(key)) => {
                    &&& config.wf()
                    &&& config.salt@ == salt@
                    &&& config.repo_key_nonce@ == repo_key_nonce@
                    &&& config.metadata_key_nonce@ == metadata_key_nonce@
                    &&& config.encrypted_repo_key@ == aes256gcm_seal(
                        key,
                        repo_key_nonce@,
                        self.repo_key(),
                    )
                    &&& config.encrypted_metadata_key@ == aes256gcm_seal(
                        key,
                        metadata_key_nonce@,
                        self.metadata_key(),
                    )
                    &&& unlocked(master_password@, config) == Ok::<_, Seq<char>>(
                        (self.repo_key(), self.metadata_key()),
                    )
                },
                (Err(e), Err(m)) => e is EncryptionError && e.detail() == m,
                _ => false,
            },
    {
        let key = match derive_master_key(master_password, salt) {
            Ok(k) => k,
            Err(e) => {
                return Err(e);
            },
        };
        let encrypted_repo_key = match seal(&key, repo_key_nonce, self.repo_key.as_slice()) {
            Some(c) => c,
            None => {
                return Err(
                    LazarusError::EncryptionError(copy_text("Failed to encrypt repository key")),
                );
            },
        };
        let encrypted_metadata_key = match seal(
            &key,
            metadata_key_nonce,
            self.metadata_key.as_slice(),
        ) {
            Some(c) => c,
            None => {
                return Err(
                    LazarusError::EncryptionError(copy_text("Failed to encrypt metadata key")),
                );
            },
        };
        Ok(
            RepositoryConfig {
                salt: copy_text(salt),
                encrypted_repo_key,
                encrypted_metadata_key,
                repo_key_nonce: vstd::slice::slice_to_vec(repo_key_nonce),
                metadata_key_nonce: vstd::slice::slice_to_vec(metadata_key_nonce),
            },
        )
    }

    /// Makes a repository: fresh random keys, guarded by the master password. It fails only where
    /// the password cannot be hashed with the salt that was drawn.
    pub fn init_repository(master_password: &str) -> (out: Result<
        (Self, RepositoryConfig),
        LazarusError,
    >)
        ensures
            match out {
                Ok((manager, config)) => {
                    &&& config.wf()
                    &&& salt_ok(config.salt@)
                    &&& salt_drawn(config.salt@)
                    &&& drawn(manager.repo_key())
                    &&& drawn(manager.metadata_key())
                    &&& drawn(config.repo_key_nonce@)
                    &&& drawn(config.metadata_key_nonce@)
                    &&& unlocked(master_password@, config) == Ok::<_, Seq<char>>(
                        (manager.repo_key(), manager.metadata_key()),
                    )
                },
                Err(e) => {
                    &&& e is EncryptionError
                    &&& exists|salt: Seq<char>|
                        salt_ok(salt) && salt_drawn(salt) && #[trigger] master_key(master_password@, salt) == Err::<
                            Seq<u8>,
                            _,
                        >(e.detail())
                },
            },
    {
        let salt = draw_salt();
        let repo_bytes = draw(32);
        let metadata_bytes = draw(32);
        let repo_key = hash_at(repo_bytes.as_slice(), 0);
        let metadata_key = hash_at(metadata_bytes.as_slice(), 0);
        assert(repo_bytes@.subrange(0, 32) =~= repo_bytes@);
        assert(metadata_bytes@.subrange(0, 32) =~= metadata_bytes@);
        let manager = KeyManager { repo_key, metadata_key };
        let repo_key_nonce = draw(12);
        let metadata_key_nonce = draw(12);
        match manager.wrap_keys(
            master_password,
            salt.as_str(),
            repo_key_nonce.as_slice(),
            metadata_key_nonce.as_slice(),
        ) {
            Ok(config) => Ok((manager, config)),
            Err(e) => Err(e),
        }
    }

    /// Guards the same keys by another password: what was encrypted before stays readable.
    pub fn rotate_master_key(&self, new_password: &str) -> (out: Result<
        RepositoryConfig,
        LazarusError,
    >)
        ensures
            match out {
                Ok(config) => {
                    &&& config.wf()
                    &&& salt_ok(config.salt@)
                    &&& salt_drawn(config.salt@)
                    &&& drawn(config.repo_key_nonce@)
                    &&& drawn(config.metadata_key_nonce@)
                    &&& unlocked(new_password@, config) == Ok::<_, Seq<char>>(
                        (self.repo_key(), self.metadata_key()),
                    )
                },
                Err(e) => {
                    &&& e is EncryptionError
                    &&& exists|salt: Seq<char>|
                        salt_ok(salt) && salt_drawn(salt) && #[trigger] master_key(new_password@, salt) == Err::<
                            Seq<u8>,
                            _,
                        >(e.detail())
                },
            },
    {
        let salt = draw_salt();
        let repo_key_nonce = draw(12);
        let metadata_key_nonce = draw(12);
        self.wrap_keys(
            new_password,
            salt.as_str(),
            repo_key_nonce.as_slice(),
            metadata_key_nonce.as_slice(),
        )
    }

    /// Unlocks a repository with its master password, or says `None` where unlocking gets to a
    /// nonce that has not the length of one.
    pub fn try_unlock_repository(master_password: &str, config: &RepositoryConfig) -> (out: Option<
        Result<Self, LazarusError>,
    >)
        ensures
            out is None <==> !nonces_fit(master_password@, *config),
            match out {
                None => true,
                Some(Ok(m)) => unlocked(master_password@, *config) == Ok::<_, Seq<char>>(
                    (m.repo_key(), m.metadata_key()),
                ),
                Some(Err(e)) => e is EncryptionError && unlocked(master_password@, *config)
                    == Err::<(Seq<u8>, Seq<u8>), _>(e.detail()),
            },
    {
        if config.repo_key_nonce.len() != 12 || config.metadata_key_nonce.len() != 12 {
            match derive_master_key(master_password, config.salt.as_str()) {
                Err(_) => {},
                Ok(key) => {
                    if config.repo_key_nonce.len() != 12 {
                        return None;
                    }
                    let repo = open(
                        &key,
                        config.repo_key_nonce.as_slice(),
                        config.encrypted_repo_key.as_slice(),
                    );
                    if repo.is_some() {
                        return None;
                    }
                },
            }
        }
        Some(Self::unlock_repository(master_password, config))
    }

    /// Unlocks a repository with its master password.
    pub fn unlock_repository(master_password: &str, config: &RepositoryConfig) -> (out: Result<
        Self,
        LazarusError,
    >)
        requires
            nonces_fit(master_password@, *config),
        ensures
            match out {
                Ok(m) => unlocked(master_password@, *config) == Ok::<_, Seq<char>>(
                    (m.repo_key(), m.metadata_key()),
                ),
                Err(e) => e is EncryptionError && unlocked(master_password@, *config) == Err::<
                    (Seq<u8>, Seq<u8>),
                    _,
                >(e.detail()),
            },
    {
        let key = match derive_master_key(master_password, config.salt.as_str()) {
            Ok(k) => k,
            Err(e) => {
                return Err(e);
            },
        };
        let repo = match open(
            &key,
            config.repo_key_nonce.as_slice(),
            config.encrypted_repo_key.as_slice(),
        ) {
            Some(p) => p,
            None => {
                return Err(
                    LazarusError::EncryptionError(
                        copy_text("Failed to decrypt repository key - wrong password?"),
                    ),
                );
            },
        };
        let meta = match open(
            &key,
            config.metadata_key_nonce.as_slice(),
            config.encrypted_metadata_key.as_slice(),
        ) {
            Some(p) => p,
            None => {
                return Err(
                    LazarusError::EncryptionError(copy_text("Failed to decrypt metadata key")),
                );
            },
        };
        if repo.len() != 32 || meta.len() != 32 {
            return Err(LazarusError::EncryptionError(copy_text("Invalid key length")));
        }
        let repo_key = hash_at(repo.as_slice(), 0);
        let metadata_key = hash_at(meta.as_slice(), 0);
        assert(repo@.subrange(0, 32) =~= repo@);
        assert(meta@.subrange(0, 32) =~= meta@);
        Ok(KeyManager { repo_key, metadata_key })
    }

    pub fn get_repo_key(&self) -> (out: &[u8; 32])
        ensures
            out@ == self.repo_key(),
    {
        &self.repo_key
    }

    pub fn get_metadata_key(&self) -> (out: &[u8; 32])
        ensures
            out@ == self.metadata_key(),
    {
        &self.metadata_key
    }

    /// Encrypts data under the data key with a fresh random nonce, which is returned beside the
    /// ciphertext.
    pub fn encrypt_data(&self, data: &[u8]) -> (out: Result<(Vec<u8>, Vec<u8>), LazarusError>)
        ensures
            out is Ok <==> data@.len() <= PLAINTEXT_MAX,
            match out {
                Ok((ct, nonce)) => {
                    &&& nonce@.len() == 12
                    &&& drawn(nonce@)
                    &&& ct@ == aes256gcm_seal(self.repo_key(), nonce@, data@)
                    &&& aes256gcm_open(self.repo_key(), nonce@, ct@) == Some(data@)
                },
                Err(e) => e is EncryptionError && e.detail() == "Failed to encrypt data"@,
            },
    {
        let nonce = draw(12);
        match seal(&self.repo_key, nonce.as_slice(), data) {
            Some(ct) => Ok((ct, nonce)),
            None => Err(LazarusError::EncryptionError(copy_text("Failed to encrypt data"))),
        }
    }

    /// Decrypts data that was encrypted under the data key.
    pub fn decrypt_data(&self, encrypted_data: &[u8], nonce: &[u8]) -> (out: Result<
        Vec<u8>,
        LazarusError,
    >)
        requires
            nonce@.len() == 12,
        ensures
            match out {
                Ok(p) => aes256gcm_open(self.repo_key(), nonce@, encrypted_data@) == Some(p@),
                Err(e) => {
                    &&& aes256gcm_open(self.repo_key(), nonce@, encrypted_data@) is None
                    &&& e is EncryptionError
                    &&& e.detail() == "Failed to decrypt data"@
                },
            },
    {
        match open(&self.repo_key, nonce, encrypted_data) {
            Some(p) => Ok(p),
            None => Err(LazarusError::EncryptionError(copy_text("Failed to decrypt data"))),
        }
    }

    /// Encrypts bytes under the metadata key with a fresh random nonce, which is returned beside
    /// the ciphertext.
    pub fn encrypt_metadata_bytes(&self, metadata: &[u8]) -> (out: Result<
        (Vec<u8>, Vec<u8>),
        LazarusError,
    >)
        ensures
            out is Ok <==> metadata@.len() <= PLAINTEXT_MAX,
            match out {
                Ok((ct, nonce)) => {
                    &&& nonce@.len() == 12
                    &&& drawn(nonce@)
                    &&& ct@ == aes256gcm_seal(self.metadata_key(), nonce@, metadata@)
                    &&& aes256gcm_open(self.metadata_key(), nonce@, ct@) == Some(metadata@)
                },
                Err(e) => e is EncryptionError && e.detail() == "Failed to encrypt metadata"@,
            },
    {
        let nonce = draw(12);
        match seal(&self.metadata_key, nonce.as_slice(), metadata) {
            Some(ct) => Ok((ct, nonce)),
            None => Err(LazarusError::EncryptionError(copy_text("Failed to encrypt metadata"))),
        }
    }

    /// Decrypts bytes that were encrypted under the metadata key.
    pub fn decrypt_metadata_bytes(&self, encrypted_metadata: &[u8], nonce: &[u8]) -> (out: Result<
        Vec<u8>,
        LazarusError,
    >)
        requires
            nonce@.len() == 12,
        ensures
            match out {
                Ok(p) => aes256gcm_open(self.metadata_key(), nonce@, encrypted_metadata@) == Some(
                    p@,
                ),
                Err(e) => {
                    &&& aes256gcm_open(self.metadata_key(), nonce@, encrypted_metadata@) is None
                    &&& e is EncryptionError
                    &&& e.detail() == "Failed to decrypt metadata"@
                },
            },
    {
        match open(&self.metadata_key, nonce, encrypted_metadata) {
            Some(p) => Ok(p),
            None => Err(LazarusError::EncryptionError(copy_text("Failed to decrypt metadata"))),
        }
    }

    /// Encrypts a text under the metadata key. `decrypt_metadata` gives it back.
    pub fn encrypt_metadata(&self, metadata: &str) -> (out: Result<
        (Vec<u8>, Vec<u8>),
        LazarusError,
    >)
        ensures
            out is Ok <==> encode_utf8(metadata@).len() <= PLAINTEXT_MAX,
            match out {
                Ok((ct, nonce)) => {
                    &&& nonce@.len() == 12
                    &&& drawn(nonce@)
                    &&& ct@ == aes256gcm_seal(self.metadata_key(), nonce@, encode_utf8(metadata@))
                    &&& metadata_text(self.metadata_key(), nonce@, ct@) == Ok::<_, Seq<char>>(
                        metadata@,
                    )
                },
                Err(e) => e is EncryptionError && e.detail() == "Failed to encrypt metadata"@,
            },
    {
        proof {
            encode_utf8_valid_utf8(metadata@);
            encode_utf8_decode_utf8(metadata@);
        }
        self.encrypt_metadata_bytes(metadata.as_bytes())
    }

    /// Decrypts a text that was encrypted under the metadata key.
    pub fn decrypt_metadata(&self, encrypted_metadata: &[u8], nonce: &[u8]) -> (out: Result<
        String,
        LazarusError,
    >)
        requires
            nonce@.len() == 12,
        ensures
            match out {
                Ok(s) => metadata_text(self.metadata_key(), nonce@, encrypted_metadata@) == Ok::<
                    _,
                    Seq<char>,
                >(s@),
                Err(e) => e is EncryptionError && metadata_text(
                    self.metadata_key(),
                    nonce@,
                    encrypted_metadata@,
                ) == Err::<Seq<char>, _>(e.detail()),
            },
    {
        match self.decrypt_metadata_bytes(encrypted_metadata, nonce) {
            Ok(bytes) => {
                let ghost raw = bytes@;
                match text_of(bytes) {
                    Some(s) => {
                        proof {
                            encode_utf8_decode_utf8(s@);
                        }
                        Ok(s)
                    },
                    None => Err(
                        LazarusError::EncryptionError(copy_text("Invalid UTF-8 in metadata")),
                    ),
                }
            },
            Err(e) => Err(e),
        }
    }
}

/// The text inside encrypted metadata, or the text of the error.
pub open spec fn metadata_text(key: Seq<u8>, nonce: Seq<u8>, ciphertext: Seq<u8>) -> Result<
    Seq<char>,
    Seq<char>,
> {
    match aes256gcm_open(key, nonce, ciphertext) {
        None => Err("Failed to decrypt metadata"@),
        Some(p) => if valid_utf8(p) {
            Ok(decode_utf8(p))
        } else {
            Err("Invalid UTF-8 in metadata"@)
        },
    }
}

/// A password unlocks a repository only where the master key that it gives with the salt opens
/// both keys, each with its own nonce.
pub proof fn keys_need_the_password(
    password: Seq<char>,
    config: RepositoryConfig,
    repo: Seq<u8>,
    meta: Seq<u8>,
)
    ensures
        unlocked(password, config) == Ok::<_, Seq<char>>((repo, meta)) <==> {
            &&& salt_ok(config.salt@)
            &&& argon2_hash(encode_utf8(password), config.salt@) matches Ok(Some(h))
            &&& h.len() >= 32
            &&& aes256gcm_open(h.take(32), config.repo_key_nonce@, config.encrypted_repo_key@)
                == Some(repo)
            &&& aes256gcm_open(
                h.take(32),
                config.metadata_key_nonce@,
                config.encrypted_metadata_key@,
            ) == Some(meta)
            &&& repo.len() == 32
            &&& meta.len() == 32
        },
{
}

/// Encrypted metadata is read with the key and the nonce, as UTF-8.
pub proof fn metadata_needs_the_key(
    key: Seq<u8>,
    nonce: Seq<u8>,
    ciphertext: Seq<u8>,
    text: Seq<char>,
)
    ensures
        metadata_text(key, nonce, ciphertext) == Ok::<_, Seq<char>>(text) <==> {
            &&& aes256gcm_open(key, nonce, ciphertext) matches Some(p)
            &&& valid_utf8(p)
            &&& decode_utf8(p) == text
        },
{
}

/// Unlocking gets to the nonce of the data key once the password gives a master key, and to that of
/// the metadata key once the data key is open; those that it gets to must have 12 bytes.
pub proof fn nonces_matter_where_they_are_used(password: Seq<char>, config: RepositoryConfig)
    ensures
        config.wf() ==> nonces_fit(password, config),
        master_key(password, config.salt@) is Err ==> nonces_fit(password, config),
        master_key(password, config.salt@) is Ok && config.repo_key_nonce@.len() != 12
            ==> !nonces_fit(password, config),
{
}

/// The master key is made of the first 32 bytes that the password and the salt hash to. Where the
/// salt can be used, it exists exactly where there are as many.
pub proof fn master_keys_are_hashed(password: Seq<char>, salt: Seq<char>)
    requires
        salt_ok(salt),
    ensures
        match argon2_hash(encode_utf8(password), salt) {
            Ok(Some(h)) => {
                &&& h.len() >= 32 <==> master_key(password, salt) is Ok
                &&& h.len() >= 32 ==> master_key(password, salt) == Ok::<_, Seq<char>>(
                    h.subrange(0, 32),
                )
            },
            _ => master_key(password, salt) is Err,
        },
{
    if let Ok(Some(h)) = argon2_hash(encode_utf8(password), salt) {
        if h.len() >= 32 {
            assert(h.take(32) =~= h.subrange(0, 32));
        }
    }
}

} // verus!
