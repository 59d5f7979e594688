//! What came of the tools that the capture runs.
use crate::error::LazarusError;
use crate::snapshot::snapshotter::trim_text;
use crate::snapshot::snapshotter::ToolCall;
use crate::text::concat2;
use crate::text::concat3;
use crate::text::copy_text;
use crate::text::signed_decimal;
use crate::text::signed_string;
use crate::text::trim;
use vstd::prelude::*;

verus! {

/// How a tool ended.
#[derive(Debug)]
pub enum ToolEnd {
    /// It ran; `code` is its exit status where it has one.
    Exited { success: bool, code: Option<i32>, stdout: Vec<u8>, stderr: String },
    NotSpawned(String),
    TimedOut,
}

/// An exit status, as it is written in messages.
pub open spec fn status_text(code: Option<i32>) -> Seq<char> {
    match code {
        Some(n) => "Some("@ + signed_decimal(n as int) + ")"@,
        None => "None"@,
    }
}

/// The text of the error for a tool that did not succeed.
pub open spec fn tool_error(program: Seq<char>, end: ToolEnd) -> Seq<char> {
    match end {
        ToolEnd::Exited { code, stderr, .. } => program + " exited with "@ + status_text(code)
            + "; stderr: "@ + trim(stderr@),
        ToolEnd::NotSpawned(e) => "failed to spawn "@ + program + ": "@ + e@,
        ToolEnd::TimedOut => "timeout running "@ + program,
    }
}

/// What a tool printed, or the text of the error where it did not succeed.
pub fn tool_output(program: &str, end: ToolEnd) -> (out: Result<Vec<u8>, String>)
    ensures
        out is Ok <==> end is Exited && end->success,
        match out {
            Ok(stdout) => stdout == end->stdout,
            Err(e) => e@ == tool_error(program@, end),
        },
{
    match end {
        ToolEnd::Exited { success, code, stdout, stderr } => {
            if success {
                return Ok(stdout);
            }
            let status = match code {
                Some(n) => concat3("Some(", signed_string(n as i64).as_str(), ")"),
                None => copy_text("None"),
            };
            let a = concat3(program, " exited with ", status.as_str());
            let b = concat3(a.as_str(), "; stderr: ", trim_text(stderr.as_str()).as_str());
            Err(b)
        },
        ToolEnd::NotSpawned(e) => {
            let front = concat3("failed to spawn ", program, ": ");
            Err(concat2(front.as_str(), e.as_str()))
        },
        ToolEnd::TimedOut => Err(concat2("timeout running ", program)),
    }
}

/// The command that archives a directory, or the text of the error where there is none.
pub fn tar_command(dir: &str, present: bool) -> (out: Result<ToolCall, String>)
    ensures
        out is Ok <==> present,
        match out {
            Ok(call) => call@ == seq!["tar"@, "-C"@, dir@, "-cf"@, "-"@, "."@],
            Err(e) => e@ == dir@ + " does not exist"@,
        },
{
    if !present {
        return Err(concat2(dir, " does not exist"));
    }
    Ok(ToolCall::new("tar").arg("-C").arg(dir).arg("-cf").arg("-").arg("."))
}

/// What can go wrong inside a collector.
#[derive(Debug)]
pub enum CaptureError {
    Io(String),
    Serialization(String),
    Timeout(String),
    Parse { component: String, message: String },
    Other(String),
}

impl CaptureError {
    /// The message for a reader.
    pub open spec fn text(self) -> Seq<char> {
        match self {
            CaptureError::Io(e) => "capture I/O: "@ + e@,
            CaptureError::Serialization(e) => "capture serialization: "@ + e@,
            CaptureError::Timeout(program) => "capture timeout running `"@ + program@ + "`"@,
            CaptureError::Parse { component, message } => "capture parse error in "@ + component@
                + ": "@ + message@,
            CaptureError::Other(e) => e@,
        }
    }

    /// The error as one of the library.
    pub fn into_error(self) -> (out: LazarusError)
        ensures
            out is Storage,
            out.detail() == self.text(),
    {
        LazarusError::Storage(
            match self {
                CaptureError::Io(e) => concat2("capture I/O: ", e.as_str()),
                CaptureError::Serialization(e) => concat2("capture serialization: ", e.as_str()),
                CaptureError::Timeout(program) => concat3(
                    "capture timeout running `",
                    program.as_str(),
                    "`",
                ),
                CaptureError::Parse { component, message } => {
                    let front = concat3("capture parse error in ", component.as_str(), ": ");
                    concat2(front.as_str(), message.as_str())
                },
                CaptureError::Other(e) => e,
            },
        )
    }
}

} // verus!
