//! Objects in a directory that SFTP reaches.
use crate::paths::join_path;
use crate::paths::joined_path;
use crate::text::strip_front_text;
use crate::text::without_front;
use vstd::prelude::*;

verus! {

/// The remote path of a key below a directory.
pub fn remote_key_path(remote_path: &str, key: &str) -> (out: String)
    ensures
        out@ == joined_path(remote_path@, without_front(key@, '/')),
{
    join_path(remote_path, strip_front_text(key, '/').as_str())
}

} // verus!
