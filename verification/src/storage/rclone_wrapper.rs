//! Objects on a remote that the `rclone` program reaches.
use crate::text::concat2;
use crate::text::concat3;
use crate::text::copy_text;
use crate::text::from_chars;
use crate::text::push_text;
use crate::text::split;
use crate::text::split_on;
use crate::text::strip_around_text;
use crate::text::strip_back;
use crate::text::strip_back_text;
use crate::text::texts;
use crate::text::texts_push;
use crate::text::to_chars;
use crate::text::trim;
use crate::text::trimmed;
use crate::text::views;
use crate::text::without_around;
use crate::text::without_back;
use vstd::prelude::*;

verus! {

/// A remote path with a segment behind it.
pub open spec fn remote_joined(base: Seq<char>, segment: Seq<char>) -> Seq<char> {
    let s = without_around(segment, '/');
    if s.len() == 0 {
        base
    } else if base.len() == 0 {
        s
    } else if base.last() == ':' {
        base + s
    } else {
        without_back(base, '/') + "/"@ + s
    }
}

/// Puts a segment behind a remote path. Behind a colon no slash is put.
pub fn join_remote_path(base: &str, segment: &str) -> (out: String)
    ensures
        out@ == remote_joined(base@, segment@),
{
    let s = strip_around_text(segment, '/');
    let b = to_chars(base);
    let sc = to_chars(s.as_str());
    if sc.len() == 0 {
        copy_text(base)
    } else if b.len() == 0 {
        s
    } else if b[b.len() - 1] == ':' {
        concat2(base, s.as_str())
    } else {
        concat3(strip_back_text(base, '/').as_str(), "/", s.as_str())
    }
}

/// The key of one line of a listing; `None` for an empty one.
pub open spec fn listed_key(prefix: Seq<char>, line: Seq<char>) -> Option<Seq<char>> {
    let entry = without_back(trim(line), '/');
    if entry.len() == 0 {
        None
    } else if without_around(prefix, '/').len() == 0 {
        Some(entry)
    } else {
        Some(without_around(prefix, '/') + "/"@ + entry)
    }
}

/// The keys of the lines of a listing.
pub open spec fn listed_keys(prefix: Seq<char>, lines: Seq<Seq<char>>) -> Seq<Seq<char>>
    decreases lines.len(),
{
    if lines.len() == 0 {
        Seq::empty()
    } else {
        match listed_key(prefix, lines.last()) {
            Some(k) => listed_keys(prefix, lines.drop_last()).push(k),
            None => listed_keys(prefix, lines.drop_last()),
        }
    }
}

/// A remote, a prefix on it, and the program that reaches it.
pub struct RcloneStorage {
    binary: String,
    remote: String,
    prefix: String,
}

impl RcloneStorage {
    pub closed spec fn program(&self) -> Seq<char> {
        self.binary@
    }

    pub closed spec fn remote(&self) -> Seq<char> {
        self.remote@
    }

    pub closed spec fn prefix(&self) -> Seq<char> {
        self.prefix@
    }

    /// The remote path of the prefix.
    pub open spec fn root(&self) -> Seq<char> {
        if self.prefix().len() == 0 {
            self.remote()
        } else {
            remote_joined(self.remote(), without_around(self.prefix(), '/'))
        }
    }

    /// The remote path of a key.
    pub open spec fn target(&self, key: Seq<char>) -> Seq<char> {
        if without_around(key, '/').len() == 0 {
            self.root()
        } else {
            remote_joined(self.root(), without_around(key, '/'))
        }
    }

    pub fn new(remote: &str) -> (out: Self)
        ensures
            out.program() == "rclone"@,
            out.remote() == remote@,
            out.prefix().len() == 0,
    {
        RcloneStorage {
            binary: copy_text("rclone"),
            remote: copy_text(remote),
            prefix: String::new(),
        }
    }

    /// A prefix on a remote.
    pub fn with_prefix(remote: &str, prefix: &str) -> (out: Self)
        ensures
            out.program() == "rclone"@,
            out.remote() == remote@,
            out.prefix() == prefix@,
    {
        Self::with_binary_path("rclone", remote, prefix)
    }

    /// A prefix on a remote that another program reaches.
    pub fn with_binary_path(binary: &str, remote: &str, prefix: &str) -> (out: Self)
        ensures
            out.program() == binary@,
            out.remote() == remote@,
            out.prefix() == prefix@,
    {
        RcloneStorage {
            binary: copy_text(binary),
            remote: copy_text(remote),
            prefix: copy_text(prefix),
        }
    }

    pub fn binary(&self) -> (out: &str)
        ensures
            out@ == self.program(),
    {
        self.binary.as_str()
    }

    fn remote_root(&self) -> (out: String)
        ensures
            out@ == self.root(),
    {
        let p = to_chars(self.prefix.as_str());
        if p.len() == 0 {
            copy_text(self.remote.as_str())
        } else {
            join_remote_path(
                self.remote.as_str(),
                strip_around_text(self.prefix.as_str(), '/').as_str(),
            )
        }
    }

    /// The remote path of a key.
    pub fn remote_path(&self, key: &str) -> (out: String)
        ensures
            out@ == self.target(key@),
    {
        let normalized = strip_around_text(key, '/');
        let n = to_chars(normalized.as_str());
        if n.len() == 0 {
            self.remote_root()
        } else {
            join_remote_path(self.remote_root().as_str(), normalized.as_str())
        }
    }

    /// The arguments that store an object from the standard input.
    pub fn put_args(&self, key: &str) -> (out: Vec<String>)
        ensures
            texts(out@) == seq!["rcat"@, self.target(key@)],
    {
        self.two_args("rcat", key)
    }

    /// The arguments that print an object.
    pub fn get_args(&self, key: &str) -> (out: Vec<String>)
        ensures
            texts(out@) == seq!["cat"@, self.target(key@)],
    {
        self.two_args("cat", key)
    }

    /// The arguments that remove an object.
    pub fn delete_args(&self, key: &str) -> (out: Vec<String>)
        ensures
            texts(out@) == seq!["deletefile"@, self.target(key@)],
    {
        self.two_args("deletefile", key)
    }

    fn two_args(&self, verb: &str, key: &str) -> (out: Vec<String>)
        ensures
            texts(out@) == seq![verb@, self.target(key@)],
    {
        let mut out: Vec<String> = Vec::new();
        out.push(copy_text(verb));
        out.push(self.remote_path(key));
        assert(texts(out@) =~= seq![verb@, self.target(key@)]);
        out
    }

    /// The arguments that list all objects below a prefix.
    pub fn list_args(&self, prefix: &str) -> (out: Vec<String>)
        ensures
            texts(out@) == seq!["lsf"@, self.target(prefix@), "--files-only"@, "--recursive"@],
    {
        let mut out = self.two_args("lsf", prefix);
        push_text(&mut out, "--files-only");
        push_text(&mut out, "--recursive");
        assert(texts(out@) =~= seq![
            "lsf"@,
            self.target(prefix@),
            "--files-only"@,
            "--recursive"@,
        ]);
        out
    }

    /// The keys of a listing.
    pub fn parse_listing(prefix: &str, listing: &str) -> (out: Vec<String>)
        ensures
            texts(out@) == listed_keys(prefix@, split_on(listing@, '\n')),
    {
        let normalized = strip_around_text(prefix, '/');
        let has_prefix: bool = to_chars(normalized.as_str()).len() > 0;
        let all = to_chars(listing);
        let lines = split(all.as_slice(), '\n');
        let ghost rows = split_on(listing@, '\n');
        let mut out: Vec<String> = Vec::new();
        let mut i: usize = 0;
        assert(rows.take(0) =~= Seq::<Seq<char>>::empty());
        assert(texts(out@) =~= listed_keys(prefix@, rows.take(0)));
        while i < lines.len()
            invariant
                i <= lines@.len(),
                views(lines@) == rows,
                normalized@ == without_around(prefix@, '/'),
                has_prefix == (normalized@.len() > 0),
                texts(out@) == listed_keys(prefix@, rows.take(i as int)),
            decreases lines@.len() - i,
        {
            let clean = trimmed(lines[i].as_slice());
            let entry = strip_back(clean.as_slice(), '/');
            proof {
                assert(rows[i as int] == views(lines@)[i as int]);
                assert(rows.take(i as int + 1).drop_last() =~= rows.take(i as int));
                assert(rows.take(i as int + 1).last() == rows[i as int]);
            }
            if entry.len() > 0 {
                let text = from_chars(entry.as_slice());
                let key = if has_prefix {
                    concat3(normalized.as_str(), "/", text.as_str())
                } else {
                    text
                };
                proof {
                    texts_push(out@, key);
                }
                out.push(key);
            }
            i += 1;
        }
        assert(rows.take(i as int) =~= rows);
        out
    }
}

proof fn nothing_around(s: Seq<char>, c: char)
    requires
        s.len() == 0 || (s[0] != c && s.last() != c),
    ensures
        without_around(s, c) == s,
{
}

/// A path goes behind the colon of a remote, or behind one slash. Slashes around it do not count,
/// and an empty one changes nothing.
pub proof fn remote_paths_are_joined(base: Seq<char>, segment: Seq<char>)
    requires
        segment.len() == 0 || (segment[0] != '/' && segment.last() != '/'),
    ensures
        segment.len() == 0 ==> remote_joined(base, segment) == base,
        segment.len() > 0 && base.len() == 0 ==> remote_joined(base, segment) == segment,
        segment.len() > 0 && base.len() > 0 && base.last() == ':' ==> remote_joined(base, segment)
            == base + segment,
        segment.len() > 0 && base.len() > 0 && base.last() != ':' && base.last() != '/'
            ==> remote_joined(base, segment) == base + "/"@ + segment,
{
    nothing_around(segment, '/');
}

/// A line of a listing is a key below the prefix that was listed; an empty line is none.
pub proof fn listed_lines_are_keys(prefix: Seq<char>, entry: Seq<char>, line: Seq<char>)
    requires
        prefix.len() == 0 || (prefix[0] != '/' && prefix.last() != '/'),
        trim(line) == entry,
        entry.len() == 0 || entry.last() != '/',
    ensures
        entry.len() == 0 ==> listed_key(prefix, line) is None,
        entry.len() > 0 && prefix.len() == 0 ==> listed_key(prefix, line) == Some(entry),
        entry.len() > 0 && prefix.len() > 0 ==> listed_key(prefix, line) == Some(
            prefix + "/"@ + entry,
        ),
{
    nothing_around(prefix, '/');
}

/// The keys of a listing come in the order of its lines.
pub proof fn listings_keep_their_order(
    prefix: Seq<char>,
    lines: Seq<Seq<char>>,
    line: Seq<char>,
)
    ensures
        listed_keys(prefix, Seq::empty()) == Seq::<Seq<char>>::empty(),
        listed_key(prefix, line) is None ==> listed_keys(prefix, lines.push(line)) == listed_keys(
            prefix,
            lines,
        ),
        listed_key(prefix, line) matches Some(key) ==> listed_keys(prefix, lines.push(line))
            == listed_keys(prefix, lines).push(key),
{
    assert(lines.push(line).drop_last() =~= lines);
}

/// An object lies below the prefix of its storage on the remote.
pub proof fn objects_lie_below_the_prefix(storage: RcloneStorage, key: Seq<char>)
    requires
        storage.remote().len() > 0,
        storage.remote().last() == ':',
        storage.prefix().len() > 0,
        storage.prefix()[0] != '/',
        storage.prefix().last() != '/',
        storage.prefix().last() != ':',
        key.len() > 0,
        key[0] != '/',
        key.last() != '/',
    ensures
        storage.target(key) == storage.remote() + storage.prefix() + "/"@ + key,
{
    nothing_around(key, '/');
    nothing_around(storage.prefix(), '/');
    remote_paths_are_joined(storage.remote(), storage.prefix());
    let root = storage.remote() + storage.prefix();
    assert(root.last() == storage.prefix().last());
    remote_paths_are_joined(root, key);
}

} // verus!
