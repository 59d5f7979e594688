//! Building the recovery image.
use crate::error::LazarusError;
use crate::snapshot::snapshotter::ToolCall;
use crate::text::concat2;
use crate::text::concat3;
use vstd::prelude::*;

verus! {

/// Whether a tool that the build needs is there.
pub fn ensure_dependency(name: &str, found: bool) -> (out: Result<(), LazarusError>)
    ensures
        out is Ok <==> found,
        out matches Err(e) ==> e is Storage && e.detail() == "Required dependency '"@ + name@
            + "' not found in PATH"@,
{
    if found {
        Ok(())
    } else {
        Err(
            LazarusError::Storage(
                concat3("Required dependency '", name, "' not found in PATH"),
            ),
        )
    }
}

/// The command that builds the image, where the script exists.
pub fn iso_command(script: &str, present: bool, output: &str, binary: Option<&str>) -> (out: Result<
    ToolCall,
    LazarusError,
>)
    ensures
        out is Ok <==> present,
        match out {
            Ok(call) => call@ == match binary {
                Some(b) => seq![script@, output@, b@],
                None => seq![script@, output@],
            },
            Err(e) => e is Storage && e.detail() == "Recovery build script not found at "@ + script@,
        },
{
    if !present {
        return Err(LazarusError::Storage(concat2("Recovery build script not found at ", script)));
    }
    let call = ToolCall::new(script).arg(output);
    match binary {
        Some(b) => Ok(call.arg(b)),
        None => Ok(call),
    }
}

/// How the build ended: it could not be started, or it ended with a status.
pub fn iso_result(script: &str, started: Result<bool, String>, status: &str) -> (out: Result<
    (),
    LazarusError,
>)
    ensures
        out is Ok <==> started == Ok::<bool, String>(true),
        out matches Err(e) ==> e is Storage && e.detail() == match started {
            Err(m) => "Failed to execute "@ + script@ + ": "@ + m@,
            Ok(_) => "ISO build failed with status "@ + status@,
        },
{
    match started {
        Err(m) => {
            let front = concat3("Failed to execute ", script, ": ");
            Err(LazarusError::Storage(concat2(front.as_str(), m.as_str())))
        },
        Ok(success) => if success {
            Ok(())
        } else {
            Err(LazarusError::Storage(concat2("ISO build failed with status ", status)))
        },
    }
}

} // verus!
