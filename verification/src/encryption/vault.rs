//! Secrets for storage backends, encrypted under the metadata key.
//!
//! The names of the secrets are not hidden.
use crate::catalog::sealed::before;
use crate::catalog::sealed::collected;
use crate::catalog::sealed::stored;
use crate::catalog::sealed::Lookup;
use crate::catalog::sealed::SealedEntry;
use crate::catalog::sealed::SealedMap;
use crate::error::LazarusError;
use crate::paths::join_path;
use crate::paths::joined_path;
use crate::primitives::aes256gcm_open;
use crate::primitives::text_of;
use crate::primitives::drawn;
use crate::primitives::PLAINTEXT_MAX;
use crate::text::concat2;
use crate::text::copy_text;
use crate::text::decimal;
use crate::text::decimal_string;
use crate::text::texts;
use vstd::prelude::*;
use vstd::utf8::decode_utf8;
use vstd::utf8::encode_utf8;
use vstd::utf8::encode_utf8_decode_utf8;
use vstd::utf8::encode_utf8_valid_utf8;
use vstd::utf8::valid_utf8;

verus! {

/// The version of the vault file.
pub const VAULT_VERSION: u32 = 1;

/// The secret of a name, or the text of the error.
pub open spec fn secret_of(
    entries: Map<Seq<char>, (Seq<u8>, Seq<u8>)>,
    key: Seq<u8>,
    name: Seq<char>,
) -> Result<Option<Seq<u8>>, Seq<char>> {
    match stored(entries, key, name) {
        Lookup::Missing => Ok(None),
        Lookup::BadNonce => Err("Vault entry has invalid nonce length"@),
        Lookup::Rejected => Err("Vault decrypt failed"@),
        Lookup::Found(p) => Ok(Some(p)),
    }
}

/// The secret of a name as a text, or the text of the error.
pub open spec fn secret_text_of(
    entries: Map<Seq<char>, (Seq<u8>, Seq<u8>)>,
    key: Seq<u8>,
    name: Seq<char>,
) -> Result<Option<Seq<char>>, Seq<char>> {
    match secret_of(entries, key, name) {
        Err(m) => Err(m),
        Ok(None) => Ok(None),
        Ok(Some(p)) => if valid_utf8(p) {
            Ok(Some(decode_utf8(p)))
        } else {
            Err("Vault entry not valid UTF-8"@)
        },
    }
}

/// The secrets of a repository.
pub struct Vault {
    path: String,
    key: [u8; 32],
    entries: SealedMap,
}

impl View for Vault {
    type V = Map<Seq<char>, (Seq<u8>, Seq<u8>)>;

    closed spec fn view(&self) -> Map<Seq<char>, (Seq<u8>, Seq<u8>)> {
        self.entries@
    }
}

impl Vault {
    pub closed spec fn wf(&self) -> bool {
        self.entries.wf()
    }

    /// The key that guards the secrets.
    pub closed spec fn key(&self) -> Seq<u8> {
        self.key@
    }

    /// Where the vault file stands.
    pub closed spec fn file(&self) -> Seq<char> {
        self.path@
    }

    /// The vault of a repository that has no vault file yet.
    pub fn open(repo_path: &str, metadata_key: [u8; 32]) -> (out: Self)
        ensures
            out.wf(),
            out@ == Map::<Seq<char>, (Seq<u8>, Seq<u8>)>::empty(),
            out.key() == metadata_key@,
            out.file() == joined_path(repo_path@, "vault.json"@),
    {
        Vault {
            path: join_path(repo_path, "vault.json"),
            key: metadata_key,
            entries: SealedMap::new(),
        }
    }

    /// The vault of a repository with the content of its vault file.
    pub fn load(
        repo_path: &str,
        metadata_key: [u8; 32],
        version: u32,
        entries: Vec<SealedEntry>,
    ) -> (out: Result<Self, LazarusError>)
        ensures
            out is Ok <==> version == VAULT_VERSION,
            match out {
                Ok(v) => {
                    &&& v.wf()
                    &&& v@ == collected(entries@)
                    &&& v.key() == metadata_key@
                    &&& v.file() == joined_path(repo_path@, "vault.json"@)
                },
                Err(e) => e is Storage && e.detail() == "Unsupported vault version: "@ + decimal(
                    version as nat,
                ),
            },
    {
        if version != VAULT_VERSION {
            return Err(
                LazarusError::Storage(
                    concat2(
                        "Unsupported vault version: ",
                        decimal_string(version as u64).as_str(),
                    ),
                ),
            );
        }
        Ok(
            Vault {
                path: join_path(repo_path, "vault.json"),
                key: metadata_key,
                entries: SealedMap::from_entries(entries),
            },
        )
    }

    pub fn path(&self) -> (out: &str)
        ensures
            out@ == self.file(),
    {
        self.path.as_str()
    }

    /// What the vault file has to hold.
    pub fn entries(&self) -> (out: &Vec<SealedEntry>)
        requires
            self.wf(),
        ensures
            crate::catalog::sealed::ascending(out@),
            crate::catalog::sealed::entry_map(out@) == self@,
    {
        self.entries.entries()
    }

    /// Stores a secret under a name, in place of the one that may be there. Reading it back gives
    /// the secret.
    pub fn put_secret(&mut self, name: &str, secret: &[u8]) -> (out: Result<(), LazarusError>)
        requires
            old(self).wf(),
        ensures
            final(self).wf(),
            final(self).key() == old(self).key(),
            final(self).file() == old(self).file(),
            out is Ok <==> secret@.len() <= PLAINTEXT_MAX,
            out matches Err(e) ==> {
                &&& e is EncryptionError
                &&& e.detail() == "Vault encrypt failed"@
                &&& final(self)@ == old(self)@
            },
            out is Ok ==> {
                &&& secret_of(final(self)@, final(self).key(), name@) == Ok::<_, Seq<char>>(
                    Some(secret@),
                )
                &&& final(self)@.dom() == old(self)@.dom().insert(name@)
                &&& final(self)@[name@].0.len() == 12
                &&& drawn(final(self)@[name@].0)
            },
            forall|n: Seq<char>|
                n != name@ && old(self)@.dom().contains(n) ==> #[trigger] final(self)@[n] == old(
                    self,
                )@[n],
    {
        if self.entries.put(&self.key, name, secret) {
            Ok(())
        } else {
            Err(LazarusError::EncryptionError(copy_text("Vault encrypt failed")))
        }
    }

    /// The secret of a name, or `None` where there is none.
    pub fn get_secret(&self, name: &str) -> (out: Result<Option<Vec<u8>>, LazarusError>)
        requires
            self.wf(),
        ensures
            match out {
                Ok(Some(p)) => secret_of(self@, self.key(), name@) == Ok::<_, Seq<char>>(Some(p@)),
                Ok(None) => secret_of(self@, self.key(), name@) == Ok::<
                    Option<Seq<u8>>,
                    Seq<char>,
                >(None),
                Err(e) => e is EncryptionError && secret_of(self@, self.key(), name@) == Err::<
                    Option<Seq<u8>>,
                    _,
                >(e.detail()),
            },
    {
        match self.entries.get(&self.key, name) {
            Lookup::Missing => Ok(None),
            Lookup::BadNonce => Err(
                LazarusError::EncryptionError(copy_text("Vault entry has invalid nonce length")),
            ),
            Lookup::Rejected => Err(
                LazarusError::EncryptionError(copy_text("Vault decrypt failed")),
            ),
            Lookup::Found(p) => Ok(Some(p)),
        }
    }

    /// Takes a secret away; nothing changes where there is none.
    pub fn delete_secret(&mut self, name: &str)
        requires
            old(self).wf(),
        ensures
            final(self).wf(),
            final(self).key() == old(self).key(),
            final(self).file() == old(self).file(),
            final(self)@ == old(self)@.remove(name@),
            secret_of(final(self)@, final(self).key(), name@) == Ok::<
                Option<Seq<u8>>,
                Seq<char>,
            >(None),
    {
        self.entries.remove(name);
    }

    /// The names of the secrets, in ascending order.
    pub fn list_names(&self) -> (out: Vec<String>)
        requires
            self.wf(),
        ensures
            forall|n: Seq<char>| texts(out@).contains(n) <==> self@.dom().contains(n),
            forall|i: int, j: int|
                0 <= i < j < out@.len() ==> before(
                    #[trigger] texts(out@)[i],
                    #[trigger] texts(out@)[j],
                ),
    {
        self.entries.names()
    }

    /// Stores a text under a name.
    pub fn put_secret_str(&mut self, name: &str, secret: &str) -> (out: Result<(), LazarusError>)
        requires
            old(self).wf(),
        ensures
            final(self).wf(),
            final(self).key() == old(self).key(),
            final(self).file() == old(self).file(),
            out is Ok <==> encode_utf8(secret@).len() <= PLAINTEXT_MAX,
            out matches Err(e) ==> {
                &&& e is EncryptionError
                &&& e.detail() == "Vault encrypt failed"@
                &&& final(self)@ == old(self)@
            },
            out is Ok ==> {
                &&& secret_text_of(final(self)@, final(self).key(), name@) == Ok::<_, Seq<char>>(
                    Some(secret@),
                )
                &&& final(self)@.dom() == old(self)@.dom().insert(name@)
                &&& final(self)@[name@].0.len() == 12
                &&& drawn(final(self)@[name@].0)
            },
            forall|n: Seq<char>|
                n != name@ && old(self)@.dom().contains(n) ==> #[trigger] final(self)@[n] == old(
                    self,
                )@[n],
    {
        proof {
            encode_utf8_valid_utf8(secret@);
            encode_utf8_decode_utf8(secret@);
        }
        self.put_secret(name, secret.as_bytes())
    }

    /// The secret of a name as a text, or `None` where there is none.
    pub fn get_secret_str(&self, name: &str) -> (out: Result<Option<String>, LazarusError>)
        requires
            self.wf(),
        ensures
            match out {
                Ok(Some(s)) => secret_text_of(self@, self.key(), name@) == Ok::<_, Seq<char>>(
                    Some(s@),
                ),
                Ok(None) => secret_text_of(self@, self.key(), name@) == Ok::<
                    Option<Seq<char>>,
                    Seq<char>,
                >(None),
                Err(e) => e is EncryptionError && secret_text_of(self@, self.key(), name@) == Err::<
                    Option<Seq<char>>,
                    _,
                >(e.detail()),
            },
    {
        match self.get_secret(name) {
            Err(e) => Err(e),
            Ok(None) => Ok(None),
            Ok(Some(bytes)) => match text_of(bytes) {
                Some(s) => {
                    proof {
                        encode_utf8_decode_utf8(s@);
                    }
                    Ok(Some(s))
                },
                None => Err(
                    LazarusError::EncryptionError(copy_text("Vault entry not valid UTF-8")),
                ),
            },
        }
    }
}

/// A secret comes out of the vault only under its name and with the key; what is not there is no
/// error.
pub proof fn secrets_need_name_and_key(
    entries: Map<Seq<char>, (Seq<u8>, Seq<u8>)>,
    key: Seq<u8>,
    name: Seq<char>,
    secret: Seq<u8>,
    text: Seq<char>,
)
    ensures
        secret_of(entries, key, name) == Ok::<_, Seq<char>>(Some(secret)) <==> {
            &&& entries.dom().contains(name)
            &&& entries[name].0.len() == 12
            &&& aes256gcm_open(key, entries[name].0, entries[name].1) == Some(secret)
        },
        secret_of(entries, key, name) == Ok::<Option<Seq<u8>>, Seq<char>>(None)
            <==> !entries.dom().contains(name),
        secret_text_of(entries, key, name) == Ok::<_, Seq<char>>(Some(text)) <==> {
            &&& entries.dom().contains(name)
            &&& entries[name].0.len() == 12
            &&& aes256gcm_open(key, entries[name].0, entries[name].1) matches Some(p)
            &&& valid_utf8(p)
            &&& decode_utf8(p) == text
        },
{
}

} // verus!
