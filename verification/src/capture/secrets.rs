//! The host keys of the SSH server.
use crate::capture::system::CaptureWarning;
use crate::text::concat2;
use crate::text::concat3;
use crate::text::has_prefix;
use crate::text::opt_text;
use crate::text::same_text;
use crate::text::starts_with;
use crate::text::to_chars;
use vstd::prelude::*;

verus! {

/// Where the host keys are stored.
#[derive(Debug)]
pub struct SshHostKeysRef {
    /// The hash of the stored keys, where there are any.
    pub blob_chunk: Option<String>,
}

impl SshHostKeysRef {
    pub fn empty() -> (out: Self)
        ensures
            out.blob_chunk is None,
    {
        SshHostKeysRef { blob_chunk: None }
    }
}

/// The files with host keys.
#[derive(Debug)]
pub struct SshHostKeysBlob {
    pub files: Vec<(String, Vec<u8>)>,
}

/// The largest key file that is kept.
pub const KEY_FILE_MAX: u64 = 262144;

/// Whether a name is that of a file with host keys.
pub open spec fn key_name(name: Seq<char>) -> bool {
    has_prefix(name, "ssh_host_"@) || name == "moduli"@
}

/// Whether a file of the SSH configuration is kept.
pub fn keeps_key_file(name: &str, is_file: bool, len: u64) -> (yes: bool)
    ensures
        yes == (key_name(name@) && is_file && len <= KEY_FILE_MAX),
{
    (starts_with(to_chars(name).as_slice(), "ssh_host_") || same_text(name, "moduli")) && is_file
        && len <= KEY_FILE_MAX
}

/// The warning where the configuration cannot be listed.
pub fn unlisted_warning(error: &str) -> (out: CaptureWarning)
    ensures
        out@ == ("ssh"@, "could not read /etc/ssh: "@ + error@, None::<Seq<char>>),
{
    CaptureWarning::new("ssh", concat2("could not read /etc/ssh: ", error).as_str())
}

/// The warning where a key file cannot be read.
pub fn unread_warning(path: &str, error: &str) -> (out: CaptureWarning)
    ensures
        out@ == ("ssh"@, "could not read "@ + path@ + ": "@ + error@, None::<Seq<char>>),
{
    let front = concat3("could not read ", path, ": ");
    CaptureWarning::new("ssh", concat2(front.as_str(), error).as_str())
}

/// Where the keys are stored, from how storing them ended: not at all where there are none.
pub fn stored_keys(stored: Option<Result<String, String>>) -> (out: (
    SshHostKeysRef,
    Option<CaptureWarning>,
))
    ensures
        match stored {
            None => out.0.blob_chunk is None && out.1 is None,
            Some(Ok(hash)) => opt_text(out.0.blob_chunk) == Some(hash@) && out.1 is None,
            Some(Err(e)) => {
                &&& out.0.blob_chunk is None
                &&& out.1 matches Some(w)
                &&& w@ == ("ssh"@, "could not persist ssh host keys: "@ + e@, None::<Seq<char>>)
            },
        },
{
    match stored {
        None => (SshHostKeysRef::empty(), None),
        Some(Ok(hash)) => (SshHostKeysRef { blob_chunk: Some(hash) }, None),
        Some(Err(e)) => (
            SshHostKeysRef::empty(),
            Some(
                CaptureWarning::new(
                    "ssh",
                    concat2("could not persist ssh host keys: ", e.as_str()).as_str(),
                ),
            ),
        ),
    }
}

/// How much of a key file is taken.
pub proof fn key_limits()
    ensures
        KEY_FILE_MAX == 256 * 1024,
{
}

} // verus!
