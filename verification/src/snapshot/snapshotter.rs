//! What the snapshot mechanisms of the system have in common: the tools they run, what the host
//! offers, and the handle to a snapshot.
use crate::error::LazarusError;
use crate::reading::decimals_have_their_value;
use crate::reading::decimals_tell_numbers_apart;
use crate::text::concat2;
use crate::text::copy_text;
use crate::text::decimal;
use crate::text::decimal_string;
use crate::text::from_chars;
use crate::text::has_prefix;
use crate::text::push_text;
use crate::text::texts;
use crate::text::to_chars;
use crate::text::trim;
use crate::text::trimmed;
use vstd::prelude::*;

verus! {

/// A command line: a program and its arguments.
#[derive(Debug)]
pub struct ToolCall {
    pub program: String,
    pub args: Vec<String>,
}

impl View for ToolCall {
    type V = Seq<Seq<char>>;

    /// The words of the command line.
    open spec fn view(&self) -> Seq<Seq<char>> {
        seq![self.program@] + texts(self.args@)
    }
}

impl ToolCall {
    pub fn new(program: &str) -> (out: Self)
        ensures
            out@ == seq![program@],
    {
        let out = ToolCall { program: copy_text(program), args: Vec::new() };
        assert(out@ =~= seq![program@]);
        out
    }

    /// The same call with one more argument.
    pub fn arg(self, word: &str) -> (out: Self)
        ensures
            out@ == self@.push(word@),
    {
        let program = self.program;
        let mut args = self.args;
        let ghost before = texts(args@);
        push_text(&mut args, word);
        let out = ToolCall { program, args };
        assert(out@ =~= self@.push(word@));
        out
    }
}

/// How a command ended: it could not be started, or it ran.
#[derive(Debug)]
pub enum ToolResult {
    NotRunnable(String),
    Done { success: bool, stdout: String, stderr: String },
}

impl ToolResult {
    pub open spec fn succeeded(self) -> bool {
        self matches ToolResult::Done { success, .. } && success
    }

    /// What the error says of a command that did not succeed.
    pub open spec fn failure(self, tool: Seq<char>, task: Seq<char>) -> Seq<char> {
        match self {
            ToolResult::NotRunnable(e) => tool + " not runnable: "@ + e@,
            ToolResult::Done { stderr, .. } => task + " failed: "@ + trim(stderr@),
        }
    }

    /// The output of a command, or the error where it did not succeed. The tool is named where it
    /// could not be started, the task where it failed.
    pub fn output(self, tool: &str, task: &str) -> (out: Result<String, LazarusError>)
        ensures
            out is Ok <==> self.succeeded(),
            match out {
                Ok(stdout) => stdout@ == self->stdout@,
                Err(e) => e is Storage && e.detail() == self.failure(tool@, task@),
            },
    {
        match self {
            ToolResult::NotRunnable(e) => {
                let front = concat2(tool, " not runnable: ");
                Err(LazarusError::Storage(concat2(front.as_str(), e.as_str())))
            },
            ToolResult::Done { success, stdout, stderr } => {
                if success {
                    Ok(stdout)
                } else {
                    let front = concat2(task, " failed: ");
                    let text = trim_text(stderr.as_str());
                    Err(LazarusError::Storage(concat2(front.as_str(), text.as_str())))
                }
            },
        }
    }
}

/// A text without the white space around it.
pub fn trim_text(s: &str) -> (out: String)
    ensures
        out@ == trim(s@),
{
    let chars = to_chars(s);
    from_chars(trimmed(chars.as_slice()).as_slice())
}

/// The name of a snapshot that is taken at a time.
pub open spec fn snap_name_at(now: u64) -> Seq<char> {
    "lazarus_snap_"@ + decimal(now as nat)
}

/// The name of a snapshot that is taken at a time.
pub fn default_snap_name(now: u64) -> (out: String)
    ensures
        out@ == snap_name_at(now),
{
    concat2("lazarus_snap_", decimal_string(now).as_str())
}

/// What is known of the host and of the path that is to be backed up.
#[derive(Debug)]
pub struct HostProbe {
    pub linux: bool,
    pub freebsd: bool,
    /// The type of the file system that holds the path, where it could be asked.
    pub fs_type: Option<i64>,
    /// How listing the ZFS dataset of the path ended.
    pub zfs_list: ToolResult,
}

/// A point-in-time view of a source. Reads below its path see the source as it was when the
/// snapshot was taken.
pub trait ConsistentMount {
    spec fn place(&self) -> Seq<char>;

    /// The path to read from.
    fn path(&self) -> (out: &str)
        ensures
            out@ == self.place(),
    ;
}

/// A mechanism that takes snapshots.
pub trait BlockSnapshotter {
    spec fn handles(path: Seq<char>, host: HostProbe) -> bool;

    /// Whether the mechanism can handle the path. This is a hint.
    fn supports(path: &str, host: &HostProbe) -> (out: bool)
        ensures
            out == Self::handles(path@, *host),
    ;
}

/// Snapshots of different times have different names.
pub proof fn names_tell_times_apart(a: u64, b: u64)
    requires
        snap_name_at(a) == snap_name_at(b),
    ensures
        a == b,
{
    reveal_strlit("lazarus_snap_");
    let front = "lazarus_snap_"@;
    assert(snap_name_at(a).skip(front.len() as int) =~= decimal(a as nat));
    assert(snap_name_at(b).skip(front.len() as int) =~= decimal(b as nat));
    decimals_tell_numbers_apart(a as nat, b as nat);
}

/// A name is made of digits behind a fixed front.
pub proof fn names_start_alike(now: u64)
    ensures
        has_prefix(snap_name_at(now), "lazarus_snap_"@),
        forall|i: int|
            "lazarus_snap_"@.len() <= i < snap_name_at(now).len() ==> '0' <= #[trigger] snap_name_at(
                now,
            )[i] <= '9',
{
    let front = "lazarus_snap_"@;
    decimals_have_their_value(now as nat);
    assert(snap_name_at(now).take(front.len() as int) =~= front);
    assert forall|i: int| front.len() <= i < snap_name_at(now).len() implies '0'
        <= #[trigger] snap_name_at(now)[i] <= '9' by {
        assert(snap_name_at(now)[i] == decimal(now as nat)[i - front.len()]);
    }
}

/// A tool has done its work only where it ran and reported success.
pub proof fn only_done_is_success(result: ToolResult)
    ensures
        result is NotRunnable ==> !result.succeeded(),
        result matches ToolResult::Done { success, .. } ==> result.succeeded() == success,
{
}

/// A tool that could not be run is named; one that failed is, with what it said of it.
pub proof fn failures_are_told(result: ToolResult, tool: Seq<char>, task: Seq<char>)
    ensures
        result matches ToolResult::NotRunnable(e) ==> result.failure(tool, task) == tool
            + " not runnable: "@ + e@,
        result matches ToolResult::Done { stderr, .. } ==> result.failure(tool, task) == task
            + " failed: "@ + trim(stderr@),
{
}

} // verus!
