//! The layout of a repository and its retention policy.
use crate::encryption::key_manager::master_key;
use crate::encryption::key_manager::unlocked;
use crate::encryption::key_manager::KeyManager;
use crate::encryption::key_manager::RepositoryConfig;
use crate::error::LazarusError;
use crate::paths::join_path;
use crate::paths::joined_path;
use crate::primitives::salt_ok;
use crate::primitives::clock_shows;
use crate::primitives::read_clock;
use crate::storage::backend::later;
use crate::storage::backend::RetentionLock;
use crate::storage::backend::RetentionMode;
use crate::text::copy_text;
use vstd::prelude::*;

verus! {

/// How long stored objects are kept from changing.
#[derive(Debug, Clone, Copy, PartialEq, Eq, Structural)]
pub struct RetentionPolicy {
    pub enabled: bool,
    pub mode: RetentionMode,
    pub min_retention_days: u32,
    pub legal_hold: bool,
    pub local_immutability: bool,
}

/// The policy of a new repository on Linux and on Windows, where files can be made immutable. On
/// other platforms a new repository has the policy of `for_platform(false)`.
impl Default for RetentionPolicy {
    fn default() -> (out: Self)
        ensures
            out == RetentionPolicy::initial(true),
    {
        RetentionPolicy::for_platform(true)
    }
}

impl RetentionPolicy {
    /// The policy of a new repository.
    pub open spec fn initial(immutable_files: bool) -> RetentionPolicy {
        RetentionPolicy {
            enabled: false,
            mode: RetentionMode::Governance,
            min_retention_days: 30,
            legal_hold: false,
            local_immutability: immutable_files,
        }
    }

    /// The policy of a new repository on a platform that has immutable files or not. Linux and
    /// Windows have them.
    pub fn for_platform(immutable_files: bool) -> (out: Self)
        ensures
            out == RetentionPolicy::initial(immutable_files),
    {
        RetentionPolicy {
            enabled: false,
            mode: RetentionMode::Governance,
            min_retention_days: 30,
            legal_hold: false,
            local_immutability: immutable_files,
        }
    }

    /// The lock that the policy asks for at the given time.
    pub open spec fn lock_at(self, now: u64) -> Option<RetentionLock> {
        if !self.enabled {
            None
        } else {
            Some(
                RetentionLock {
                    mode: self.mode,
                    retain_until: if self.min_retention_days == 0 {
                        None
                    } else {
                        Some(later(now, (self.min_retention_days * 86_400) as u64))
                    },
                    legal_hold: self.legal_hold,
                    local_immutability: self.local_immutability,
                },
            )
        }
    }

    /// The lock that the policy asks for at the given time.
    pub fn as_lock_at(&self, now: u64) -> (out: Option<RetentionLock>)
        ensures
            out == self.lock_at(now),
    {
        if !self.enabled {
            return None;
        }
        let mut lock = RetentionLock::new(self.mode);
        lock.legal_hold = self.legal_hold;
        lock.local_immutability = self.local_immutability;
        if self.min_retention_days > 0 {
            lock = lock.with_retain_duration_from(now, self.min_retention_days as u64 * 86_400);
        }
        Some(lock)
    }

    /// The lock that the policy asks for now.
    pub fn as_lock(&self) -> (out: Option<RetentionLock>)
        ensures
            exists|now: u64| #[trigger] clock_shows(now) && out == self.lock_at(now),
            !self.enabled ==> out is None,
            self.enabled && self.min_retention_days == 0 ==> out == self.lock_at(0),
    {
        let now = read_clock();
        self.as_lock_at(now)
    }
}

/// The directory of a repository.
pub struct ConfigManager {
    repo_path: String,
}

impl ConfigManager {
    /// The directory.
    pub closed spec fn root(&self) -> Seq<char> {
        self.repo_path@
    }

    pub fn new(repo_path: &str) -> (out: Self)
        ensures
            out.root() == repo_path@,
    {
        ConfigManager { repo_path: copy_text(repo_path) }
    }

    pub fn repo_path(&self) -> (out: &str)
        ensures
            out@ == self.root(),
    {
        self.repo_path.as_str()
    }

    pub fn data_path(&self) -> (out: String)
        ensures
            out@ == joined_path(self.root(), "data"@),
    {
        join_path(self.repo_path.as_str(), "data")
    }

    pub fn indexes_path(&self) -> (out: String)
        ensures
            out@ == joined_path(self.root(), "indexes"@),
    {
        join_path(self.repo_path.as_str(), "indexes")
    }

    pub fn snapshots_path(&self) -> (out: String)
        ensures
            out@ == joined_path(self.root(), "snapshots"@),
    {
        join_path(self.repo_path.as_str(), "snapshots")
    }

    pub fn database_path(&self) -> (out: String)
        ensures
            out@ == joined_path(joined_path(self.root(), "indexes"@), "index.db"@),
    {
        join_path(self.indexes_path().as_str(), "index.db")
    }

    pub fn config_path(&self) -> (out: String)
        ensures
            out@ == joined_path(self.root(), "config.json"@),
    {
        join_path(self.repo_path.as_str(), "config.json")
    }

    pub fn retention_policy_path(&self) -> (out: String)
        ensures
            out@ == joined_path(self.root(), "retention_policy.json"@),
    {
        join_path(self.repo_path.as_str(), "retention_policy.json")
    }

    /// Whether a repository may be made here.
    pub fn check_init(config_exists: bool) -> (out: Result<(), LazarusError>)
        ensures
            out is Err <==> config_exists,
            out matches Err(e) ==> e is Storage && e.detail() == "Repository already exists"@,
    {
        if config_exists {
            Err(LazarusError::Storage(copy_text("Repository already exists")))
        } else {
            Ok(())
        }
    }

    /// Whether there is a repository to open.
    pub fn check_open(config_exists: bool) -> (out: Result<(), LazarusError>)
        ensures
            out is Err <==> !config_exists,
            out matches Err(e) ==> e is Storage && e.detail()
                == "Repository not found. Run 'init' first."@,
    {
        if config_exists {
            Ok(())
        } else {
            Err(LazarusError::Storage(copy_text("Repository not found. Run 'init' first.")))
        }
    }

    /// Guards the keys of a repository by another password. The current one must unlock them.
    /// What was encrypted before can be read with the new password.
    pub fn rotate_master_key(
        config: &RepositoryConfig,
        current_password: &str,
        new_password: &str,
    ) -> (out: Result<RepositoryConfig, LazarusError>)
        requires
            config.wf(),
        ensures
            match out {
                Ok(new_config) => {
                    &&& new_config.wf()
                    &&& unlocked(current_password@, *config) is Ok
                    &&& unlocked(new_password@, new_config) == unlocked(current_password@, *config)
                },
                Err(e) => e is EncryptionError,
            },
            unlocked(current_password@, *config) matches Err(m) ==> out matches Err(e) && e.detail()
                == m,
            unlocked(current_password@, *config) is Ok && out is Err ==> exists|salt: Seq<char>|
                salt_ok(salt) && #[trigger] master_key(new_password@, salt) == Err::<Seq<u8>, _>(
                    out->Err_0.detail(),
                ),
    {
        match KeyManager::unlock_repository(current_password, config) {
            Ok(keys) => keys.rotate_master_key(new_password),
            Err(e) => Err(e),
        }
    }
}

/// What an enabled policy asks for is a lock of its mode and with its holds that lasts the least
/// number of days from its start on, and has no end where no days are asked for. A policy that is
/// not enabled asks for none.
pub proof fn locks_last_the_retention_period(policy: RetentionPolicy, now: u64)
    ensures
        !policy.enabled ==> policy.lock_at(now) is None,
        policy.enabled ==> {
            &&& policy.lock_at(now) matches Some(lock)
            &&& lock.mode == policy.mode
            &&& lock.legal_hold == policy.legal_hold
            &&& lock.local_immutability == policy.local_immutability
            &&& policy.min_retention_days == 0 ==> lock.retain_until is None
            &&& policy.min_retention_days > 0 ==> {
                &&& lock.retain_until matches Some(end)
                &&& now + policy.min_retention_days * 86_400 <= u64::MAX ==> end == now
                    + policy.min_retention_days * 86_400
                &&& now + policy.min_retention_days * 86_400 > u64::MAX ==> end == u64::MAX
            }
        },
{
}

/// A new repository asks for no locks. Once enabled, its locks last 30 days in governance mode.
pub proof fn new_repositories_ask_for_no_locks(immutable_files: bool)
    ensures
        ({
            let policy = RetentionPolicy::initial(immutable_files);
            &&& !policy.enabled
            &&& policy.mode == RetentionMode::Governance
            &&& policy.min_retention_days == 30
            &&& !policy.legal_hold
            &&& policy.local_immutability == immutable_files
        }),
{
}

/// A lock that a policy asks for now starts with a reading of the clock: it does not end before
/// the least number of days have passed since.
pub proof fn locks_start_with_the_clock(policy: RetentionPolicy, out: Option<RetentionLock>)
    requires
        exists|now: u64| #[trigger] clock_shows(now) && out == policy.lock_at(now),
        policy.enabled,
        policy.min_retention_days > 0,
    ensures
        exists|now: u64| #[trigger]
            clock_shows(now) && (out matches Some(lock) && lock.retain_until matches Some(end) && (
            end == u64::MAX || end >= now + policy.min_retention_days * 86_400)),
{
    let now = choose|now: u64| #[trigger] clock_shows(now) && out == policy.lock_at(now);
    locks_last_the_retention_period(policy, now);
}

} // verus!
