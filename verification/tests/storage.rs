use lazarus::storage::backend::{RetentionLock, RetentionMode};
use lazarus::storage::local::LocalStorage;
use lazarus::storage::rclone_wrapper::{join_remote_path, RcloneStorage};
use lazarus::storage::s3::{format_key, strip_key};
use lazarus::storage::ssh::remote_key_path;

#[test]
fn join_remote_handles_colon() {
    assert_eq!(join_remote_path("gdrive:", "backups"), "gdrive:backups");
    assert_eq!(join_remote_path("gdrive:tenant", "daily"), "gdrive:tenant/daily");
    assert_eq!(join_remote_path("/data", "vault"), "/data/vault");
}

#[test]
fn test_get_key() {
    assert_eq!(format_key("backups", "file.txt"), "backups/file.txt");
    assert_eq!(format_key("backups/", "dir/file.txt"), "backups/dir/file.txt");
    assert_eq!(format_key("", "file.txt"), "file.txt");
    assert_eq!(
        format_key("nested/prefix", "/leading/slash.txt"),
        "nested/prefix/leading/slash.txt"
    );
}

#[test]
fn keys_lose_their_prefix_again() {
    assert_eq!(strip_key("backups", &format_key("backups", "a/b")), "a/b");
    assert_eq!(strip_key("", "a/b"), "a/b");
}

#[test]
fn local_keys_lie_under_the_root() {
    let s = LocalStorage::new("/repo/data");
    assert_eq!(s.resolve_key("ab/abcd"), "/repo/data/ab/abcd");
    let mut lock = RetentionLock::new(RetentionMode::Governance);
    assert!(!LocalStorage::locks_after_write(None));
    assert!(!LocalStorage::locks_after_write(Some(&lock)));
    lock.local_immutability = true;
    assert!(LocalStorage::locks_after_write(Some(&lock)));
}

#[test]
fn rclone_is_called_with_the_remote_path() {
    let s = RcloneStorage::with_prefix("gdrive:", "backups");
    assert_eq!(s.remote_path("ab/abcd"), "gdrive:backups/ab/abcd");
    assert_eq!(s.get_args("ab/abcd"), vec!["cat", "gdrive:backups/ab/abcd"]);
}

#[test]
fn ssh_keys_lie_under_the_remote_path() {
    assert_eq!(remote_key_path("/backups", "ab/abcd"), "/backups/ab/abcd");
}
