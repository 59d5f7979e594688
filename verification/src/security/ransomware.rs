//! Looking for signs of ransomware before a backup: a canary file that nobody should change, and
//! files that look encrypted.
//!
//! How random a file looks is measured elsewhere, from the counts that are taken here.
use crate::bytes::same_bytes;
use crate::error::LazarusError;
use crate::paths::join_path;
use crate::paths::joined_path;
use crate::text::concat3;
use crate::text::copy_text;
use crate::text::decimal;
use crate::text::decimal_string;
use crate::text::push_text;
use crate::text::same_text;
use crate::text::texts;
use crate::text::to_chars;
use vstd::prelude::*;

verus! {

/// The name of the canary file.
pub const CANARY_FILENAME: &'static str = ".lazarus_canary";

/// How many bytes of a file are looked at.
pub const ENTROPY_SAMPLE_SIZE: usize = 262144;

/// How many files are looked at.
pub const MAX_SCANNED_FILES: usize = 1000;

/// What a canary file holds: `LazarusCanarySignatureV1`.
pub open spec fn canary_bytes() -> Seq<u8> {
    seq![
        0x4cu8,
        0x61u8,
        0x7au8,
        0x61u8,
        0x72u8,
        0x75u8,
        0x73u8,
        0x43u8,
        0x61u8,
        0x6eu8,
        0x61u8,
        0x72u8,
        0x79u8,
        0x53u8,
        0x69u8,
        0x67u8,
        0x6eu8,
        0x61u8,
        0x74u8,
        0x75u8,
        0x72u8,
        0x65u8,
        0x56u8,
        0x31u8,
    ]
}

/// What a canary file holds.
pub fn canary_signature() -> (out: Vec<u8>)
    ensures
        out@ == canary_bytes(),
{
    let bytes: [u8; 24] = [
        0x4cu8,
        0x61u8,
        0x7au8,
        0x61u8,
        0x72u8,
        0x75u8,
        0x73u8,
        0x43u8,
        0x61u8,
        0x6eu8,
        0x61u8,
        0x72u8,
        0x79u8,
        0x53u8,
        0x69u8,
        0x67u8,
        0x6eu8,
        0x61u8,
        0x74u8,
        0x75u8,
        0x72u8,
        0x65u8,
        0x56u8,
        0x31u8,
    ];
    let out = vstd::slice::slice_to_vec(bytes.as_slice());
    assert(out@ =~= canary_bytes());
    out
}

/// Whether a canary file is unchanged.
pub fn canary_intact(data: &[u8]) -> (yes: bool)
    ensures
        yes == (data@ == canary_bytes()),
{
    same_bytes(data, canary_signature().as_slice())
}

/// Where the canary of a target lies: in a directory itself, or beside a file.
pub fn canary_path(target: &str, is_dir: bool, parent: Option<&str>) -> (out: Result<
    String,
    LazarusError,
>)
    ensures
        out is Ok <==> is_dir || parent is Some,
        match out {
            Ok(path) => path@ == joined_path(
                if is_dir {
                    target@
                } else {
                    parent->0@
                },
                CANARY_FILENAME@,
            ),
            Err(e) => e is Storage && e.detail() == "Unable to deploy canary"@,
        },
{
    if is_dir {
        return Ok(join_path(target, CANARY_FILENAME));
    }
    match parent {
        Some(dir) => Ok(join_path(dir, CANARY_FILENAME)),
        None => Err(LazarusError::Storage(copy_text("Unable to deploy canary"))),
    }
}

/// Whether a file is a canary.
pub fn is_canary(file_name: &str) -> (yes: bool)
    ensures
        yes == (file_name@ == CANARY_FILENAME@),
{
    same_text(file_name, CANARY_FILENAME)
}

/// How many bytes of a file of this length are looked at.
pub fn sample_len(file_len: u64) -> (n: usize)
    ensures
        n == if file_len < ENTROPY_SAMPLE_SIZE {
            file_len as int
        } else {
            ENTROPY_SAMPLE_SIZE as int
        },
{
    if file_len < ENTROPY_SAMPLE_SIZE as u64 {
        file_len as usize
    } else {
        ENTROPY_SAMPLE_SIZE
    }
}

/// How often a byte occurs.
pub open spec fn occurrences(data: Seq<u8>, b: u8) -> nat
    decreases data.len(),
{
    if data.len() == 0 {
        0
    } else if data.last() == b {
        occurrences(data.drop_last(), b) + 1
    } else {
        occurrences(data.drop_last(), b)
    }
}

proof fn occurrences_bounded(data: Seq<u8>, b: u8)
    ensures
        occurrences(data, b) <= data.len(),
    decreases data.len(),
{
    if data.len() > 0 {
        occurrences_bounded(data.drop_last(), b);
    }
}

/// How often each byte occurs, which is what the entropy of the data is computed from.
pub fn byte_counts(data: &[u8]) -> (counts: Vec<u64>)
    ensures
        counts@.len() == 256,
        forall|b: u8| #[trigger] counts@[b as int] == occurrences(data@, b),
{
    let mut counts: Vec<u64> = Vec::new();
    let mut k: usize = 0;
    while k < 256
        invariant
            k <= 256,
            counts@.len() == k,
            forall|j: int| 0 <= j < k ==> counts@[j] == 0,
        decreases 256 - k,
    {
        counts.push(0);
        k += 1;
    }
    let mut i: usize = 0;
    assert(data@.take(0) =~= Seq::<u8>::empty());
    let len: usize = data.len();
    while i < len
        invariant
            i <= len,
            len == data@.len(),
            counts@.len() == 256,
            forall|b: u8| #[trigger] counts@[b as int] == occurrences(data@.take(i as int), b),
        decreases len - i,
    {
        let b: u8 = data[i];
        assert(data@.take(i as int + 1).drop_last() =~= data@.take(i as int));
        proof {
            occurrences_bounded(data@.take(i as int), b);
        }
        let n: u64 = counts[b as usize];
        assert(n == counts@[b as int]);
        counts.set(b as usize, n + 1);
        i += 1;
    }
    assert(data@.take(i as int) =~= data@);
    counts
}

/// What the scan makes of a source.
#[derive(Debug, Clone, Copy, PartialEq, Eq, Structural)]
pub enum DetectionVerdict {
    Clean,
    Suspicious,
}

/// A source is suspicious where it shows an anomaly or has lost its trust.
pub fn verdict(anomalies: usize, trusted: bool) -> (out: DetectionVerdict)
    ensures
        out == DetectionVerdict::Clean <==> anomalies == 0 && trusted,
{
    if anomalies > 0 || !trusted {
        DetectionVerdict::Suspicious
    } else {
        DetectionVerdict::Clean
    }
}

/// Whether a backup may go on: not where the source is suspicious, unless the user insists.
pub fn check_verdict(verdict: DetectionVerdict, force: bool) -> (out: Result<(), LazarusError>)
    ensures
        out is Ok <==> verdict == DetectionVerdict::Clean || force,
        out matches Err(e) ==> e is VerificationFailed && e.detail()
            == "Backup aborted due to ransomware indicators"@,
{
    if verdict == DetectionVerdict::Suspicious && !force {
        Err(
            LazarusError::VerificationFailed(
                copy_text("Backup aborted due to ransomware indicators"),
            ),
        )
    } else {
        Ok(())
    }
}

/// A name without slashes.
pub open spec fn without_slashes(name: Seq<char>) -> Seq<char> {
    Seq::new(
        name.len(),
        |i: int|
            if name[i] == '/' {
                '_'
            } else {
                name[i]
            },
    )
}

/// The name under which a file is put into quarantine.
pub fn quarantine_name(timestamp: u64, file_name: &str) -> (out: String)
    ensures
        out@ == decimal(timestamp as nat) + "-"@ + without_slashes(file_name@),
{
    let chars = to_chars(file_name);
    let mut clean: String = String::new();
    let mut i: usize = 0;
    while i < chars.len()
        invariant
            i <= chars@.len(),
            chars@ == file_name@,
            clean@ == without_slashes(file_name@).take(i as int),
        decreases chars@.len() - i,
    {
        let c = if chars[i] == '/' {
            '_'
        } else {
            chars[i]
        };
        clean.push(c);
        assert(clean@ =~= without_slashes(file_name@).take(i as int + 1));
        i += 1;
    }
    assert(clean@ =~= without_slashes(file_name@));
    concat3(decimal_string(timestamp).as_str(), "-", clean.as_str())
}

/// The name of the list of what was put into quarantine.
pub fn manifest_name(timestamp: u64) -> (out: String)
    ensures
        out@ == "manifest-"@ + decimal(timestamp as nat) + ".json"@,
{
    concat3("manifest-", decimal_string(timestamp).as_str(), ".json")
}

/// The files of a tree that are looked at, while the tree is walked.
pub struct FileCollector {
    pub files: Vec<String>,
    /// The directories that are still to be listed.
    pub dirs: Vec<String>,
    pub max_files: usize,
}

impl FileCollector {
    /// A walk from a root, which is a file, a directory or neither.
    pub fn new(root: &str, is_file: bool, is_dir: bool, max_files: usize) -> (out: Self)
        ensures
            out.max_files == max_files,
            texts(out.files@) == if is_file {
                seq![root@]
            } else {
                Seq::empty()
            },
            texts(out.dirs@) == if !is_file && is_dir {
                seq![root@]
            } else {
                Seq::empty()
            },
    {
        let mut files: Vec<String> = Vec::new();
        let mut dirs: Vec<String> = Vec::new();
        assert(texts(files@) =~= Seq::<Seq<char>>::empty());
        assert(texts(dirs@) =~= Seq::<Seq<char>>::empty());
        if is_file {
            push_text(&mut files, root);
        } else if is_dir {
            push_text(&mut dirs, root);
        }
        FileCollector { files, dirs, max_files }
    }

    /// The next directory to list: the one that was found last.
    pub fn next_dir(&mut self) -> (out: Option<String>)
        ensures
            final(self).files == old(self).files,
            final(self).max_files == old(self).max_files,
            out is None <==> old(self).dirs@.len() == 0,
            match out {
                Some(dir) => texts(final(self).dirs@).push(dir@) == texts(old(self).dirs@),
                None => final(self).dirs@ == old(self).dirs@,
            },
    {
        let ghost before = self.dirs@;
        let out = self.dirs.pop();
        if let Some(dir) = &out {
            assert(texts(self.dirs@).push(dir@) =~= texts(before));
        }
        out
    }

    /// Notes an entry of a directory. Whether enough files were found.
    pub fn note(&mut self, path: &str, is_dir: bool, is_file: bool) -> (enough: bool)
        ensures
            final(self).max_files == old(self).max_files,
            texts(final(self).dirs@) == if is_dir {
                texts(old(self).dirs@).push(path@)
            } else {
                texts(old(self).dirs@)
            },
            texts(final(self).files@) == if !is_dir && is_file {
                texts(old(self).files@).push(path@)
            } else {
                texts(old(self).files@)
            },
            enough == (!is_dir && is_file && final(self).files@.len() >= old(self).max_files),
    {
        if is_dir {
            push_text(&mut self.dirs, path);
            false
        } else if is_file {
            push_text(&mut self.files, path);
            self.files.len() >= self.max_files
        } else {
            false
        }
    }
}

/// Each byte of the data counts once, for its own value.
pub proof fn bytes_are_counted(data: Seq<u8>, b: u8, c: u8)
    ensures
        occurrences(Seq::empty(), c) == 0,
        occurrences(data.push(b), c) == occurrences(data, c) + if b == c {
            1nat
        } else {
            0nat
        },
{
    assert(data.push(b).drop_last() =~= data);
}

/// The name of a file in quarantine has no slash, and is otherwise the name of the file.
pub proof fn quarantined_names_have_no_slash(name: Seq<char>, i: int)
    requires
        0 <= i < name.len(),
    ensures
        without_slashes(name).len() == name.len(),
        without_slashes(name)[i] != '/',
        name[i] == '/' ==> without_slashes(name)[i] == '_',
        name[i] != '/' ==> without_slashes(name)[i] == name[i],
{
}

/// What the search for tampering goes by: the name of the canary, how much of a file is looked at
/// and how many files are.
pub proof fn search_limits()
    ensures
        CANARY_FILENAME@ == ".lazarus_canary"@,
        ENTROPY_SAMPLE_SIZE == 256 * 1024,
        MAX_SCANNED_FILES == 1000,
        canary_bytes().len() == 24,
{
}

} // verus!
