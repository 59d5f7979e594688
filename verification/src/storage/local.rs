//! Objects in a directory of the local file system.
use crate::paths::join_path;
use crate::paths::joined_path;
use crate::storage::backend::RetentionLock;
use crate::text::copy_text;
use crate::text::strip_front_text;
use crate::text::without_front;
use vstd::prelude::*;

verus! {

/// A directory that holds objects.
pub struct LocalStorage {
    path: String,
}

impl Clone for LocalStorage {
    fn clone(&self) -> (out: Self)
        ensures
            out.root() == self.root(),
    {
        LocalStorage { path: copy_text(self.path.as_str()) }
    }
}

/// The name under which an object is written before it is moved into place.
pub open spec fn temporary_name(file_name: Seq<char>, suffix: Seq<char>) -> Seq<char> {
    ".tmp."@ + file_name + "."@ + suffix
}

impl LocalStorage {
    /// The directory.
    pub closed spec fn root(&self) -> Seq<char> {
        self.path@
    }

    pub fn new(path: &str) -> (out: Self)
        ensures
            out.root() == path@,
    {
        LocalStorage { path: copy_text(path) }
    }

    /// The path of an object; a leading slash of the key does not lead out of the directory.
    pub fn resolve_key(&self, key: &str) -> (out: String)
        ensures
            out@ == joined_path(self.root(), without_front(key@, '/')),
    {
        join_path(self.path.as_str(), strip_front_text(key, '/').as_str())
    }

    /// The directory below the root that a listing reads.
    pub fn listing_path(&self, prefix: &str) -> (out: String)
        ensures
            out@ == joined_path(self.root(), prefix@),
    {
        join_path(self.path.as_str(), prefix)
    }

    /// The name under which an object is written before it is moved into place.
    pub fn temp_name(file_name: Option<&str>, suffix: &str) -> (out: String)
        ensures
            out@ == temporary_name(
                match file_name {
                    Some(n) => n@,
                    None => "chunk"@,
                },
                suffix@,
            ),
    {
        let mut out = copy_text(".tmp.");
        match file_name {
            Some(n) => out.append(n),
            None => out.append("chunk"),
        }
        out.append(".");
        out.append(suffix);
        out
    }

    /// Whether a freshly written object is made immutable.
    pub fn locks_after_write(lock: Option<&RetentionLock>) -> (out: bool)
        ensures
            out == (lock matches Some(l) && l.local_immutability),
    {
        match lock {
            Some(l) => l.local_immutability,
            None => false,
        }
    }
}

/// No key is resolved outside the directory by an absolute path: the result is the directory and
/// the key behind it.
pub proof fn keys_stay_below_the_root(root: Seq<char>, key: Seq<char>)
    requires
        root.len() > 0,
    ensures
        joined_path(root, without_front(key, '/')).len() >= root.len(),
        joined_path(root, without_front(key, '/')).take(root.len() as int) == root,
{
    front_is_stripped(key);
    let rest = without_front(key, '/');
    let out = joined_path(root, rest);
    assert(out.take(root.len() as int) =~= root);
}

proof fn front_is_stripped(key: Seq<char>)
    ensures
        without_front(key, '/').len() > 0 ==> without_front(key, '/')[0] != '/',
    decreases key.len(),
{
    if key.len() > 0 && key[0] == '/' {
        front_is_stripped(key.drop_first());
    }
}

/// An object is written under another name than its own before it is moved into place, and under
/// a name that is hidden.
pub proof fn temporary_names_are_others(file_name: Seq<char>, suffix: Seq<char>)
    ensures
        temporary_name(file_name, suffix) == ".tmp."@ + file_name + "."@ + suffix,
        temporary_name(file_name, suffix) != file_name,
        temporary_name(file_name, suffix)[0] == '.',
{
    reveal_strlit(".tmp.");
    reveal_strlit(".");
    assert(temporary_name(file_name, suffix).len() > file_name.len());
}

} // verus!
