//! What the log of a repository gets once a command is done.
use crate::catalog::history::History;
use crate::catalog::history::HistoryEntry;
use crate::catalog::history::Operation;
use crate::catalog::history::HISTORY_VERSION;
use crate::commands::prune_run::PruneRun;
use crate::commands::verify::VerifyTally;
use crate::primitives::json_quoted;
use crate::primitives::quote_json;
use crate::primitives::clock_shows;
use crate::primitives::read_clock;
use crate::snapshot::manager::logged;
use crate::text::copy_text;
use crate::text::decimal;
use crate::text::decimal_string;
use vstd::prelude::*;

verus! {

/// How a command on a repository ended.
#[derive(Debug)]
pub enum CommandEnd {
    /// The repository was made.
    Init,
    /// So many chunks were backed up, for a snapshot where one was written.
    Backup { snapshot_id: Option<String>, chunks: u64 },
    /// So many snapshots were dropped, and so many chunks deleted.
    Prune { snapshots: u64, chunks: u64 },
    /// The keys are guarded by another password.
    KeyRotate,
    /// A snapshot was restored.
    Restore { snapshot_id: String },
    /// So many chunks were found good, missing and corrupted, and so many layouts faulty.
    Verify { verified: u64, missing: u64, corrupted: u64, manifest_errors: u64 },
}

impl CommandEnd {
    /// What was done to the repository.
    pub open spec fn kind(self) -> Operation {
        match self {
            CommandEnd::Init => Operation::Init,
            CommandEnd::Backup { .. } => Operation::Backup,
            CommandEnd::Prune { .. } => Operation::Prune,
            CommandEnd::KeyRotate => Operation::KeyRotate,
            CommandEnd::Restore { .. } => Operation::Restore,
            CommandEnd::Verify { .. } => Operation::Verify,
        }
    }

    pub fn operation(&self) -> (out: Operation)
        ensures
            out == self.kind(),
    {
        match self {
            CommandEnd::Init => Operation::Init,
            CommandEnd::Backup { .. } => Operation::Backup,
            CommandEnd::Prune { .. } => Operation::Prune,
            CommandEnd::KeyRotate => Operation::KeyRotate,
            CommandEnd::Restore { .. } => Operation::Restore,
            CommandEnd::Verify { .. } => Operation::Verify,
        }
    }

    /// What the log says of it: a JSON object without white space, its keys in order.
    pub open spec fn json(self) -> Seq<char> {
        match self {
            CommandEnd::Init => "{}"@,
            CommandEnd::Backup { snapshot_id, chunks } => "{\"chunk_count\":"@ + decimal(
                chunks as nat,
            ) + ",\"snapshot_id\":"@ + match snapshot_id {
                Some(id) => json_quoted(id@),
                None => "null"@,
            } + "}"@,
            CommandEnd::Prune { snapshots, chunks } => "{\"dropped_snapshots\":"@ + decimal(
                snapshots as nat,
            ) + ",\"removed_chunks\":"@ + decimal(chunks as nat) + "}"@,
            CommandEnd::KeyRotate => "{}"@,
            CommandEnd::Restore { snapshot_id } => "{\"snapshot_id\":"@ + json_quoted(
                snapshot_id@,
            ) + "}"@,
            CommandEnd::Verify { verified, missing, corrupted, manifest_errors } =>
                "{\"corrupted\":"@ + decimal(corrupted as nat) + ",\"manifest_errors\":"@
                + decimal(manifest_errors as nat) + ",\"missing\":"@ + decimal(missing as nat)
                + ",\"verified\":"@ + decimal(verified as nat) + "}"@,
        }
    }

    pub fn details(&self) -> (out: String)
        ensures
            out@ == self.json(),
    {
        match self {
            CommandEnd::Init => copy_text("{}"),
            CommandEnd::Backup { snapshot_id, chunks } => {
                let mut out = copy_text("{\"chunk_count\":");
                out.append(decimal_string(*chunks).as_str());
                out.append(",\"snapshot_id\":");
                match snapshot_id {
                    Some(id) => {
                        out.append(quote_json(id.as_str()).as_str());
                    },
                    None => {
                        out.append("null");
                    },
                }
                out.append("}");
                assert(out@ =~= self.json());
                out
            },
            CommandEnd::Prune { snapshots, chunks } => {
                let mut out = copy_text("{\"dropped_snapshots\":");
                out.append(decimal_string(*snapshots).as_str());
                out.append(",\"removed_chunks\":");
                out.append(decimal_string(*chunks).as_str());
                out.append("}");
                assert(out@ =~= self.json());
                out
            },
            CommandEnd::KeyRotate => copy_text("{}"),
            CommandEnd::Restore { snapshot_id } => {
                let mut out = copy_text("{\"snapshot_id\":");
                out.append(quote_json(snapshot_id.as_str()).as_str());
                out.append("}");
                assert(out@ =~= self.json());
                out
            },
            CommandEnd::Verify { verified, missing, corrupted, manifest_errors } => {
                let mut out = copy_text("{\"corrupted\":");
                out.append(decimal_string(*corrupted).as_str());
                out.append(",\"manifest_errors\":");
                out.append(decimal_string(*manifest_errors).as_str());
                out.append(",\"missing\":");
                out.append(decimal_string(*missing).as_str());
                out.append(",\"verified\":");
                out.append(decimal_string(*verified).as_str());
                out.append("}");
                assert(out@ =~= self.json());
                out
            },
        }
    }

    /// The end of a prune.
    pub fn of_prune(run: &PruneRun) -> (out: Self)
        ensures
            out == (CommandEnd::Prune {
                snapshots: run.dropped@.len() as u64,
                chunks: run.removed as u64,
            }),
    {
        CommandEnd::Prune { snapshots: run.dropped.len() as u64, chunks: run.removed as u64 }
    }

    /// The end of a verification, whatever it found.
    pub fn of_verify(tally: &VerifyTally) -> (out: Self)
        ensures
            out == (CommandEnd::Verify {
                verified: tally.verified,
                missing: tally.missing,
                corrupted: tally.corrupted,
                manifest_errors: tally.manifest_errors,
            }),
    {
        CommandEnd::Verify {
            verified: tally.verified,
            missing: tally.missing,
            corrupted: tally.corrupted,
            manifest_errors: tally.manifest_errors,
        }
    }
}

/// Appends the entry that the end of a command owes to the log, with the given time. Every command
/// owes one; a clean log stays clean.
pub fn log_end_at(history: &mut History, actor: &str, end: &CommandEnd, now: u64)
    ensures
        final(history).key() == old(history).key(),
        final(history).file() == old(history).file(),
        logged(
            old(history)@,
            final(history)@,
            old(history).key(),
            end.kind(),
            actor@,
            end.json(),
        ),
        final(history)@.last().version == HISTORY_VERSION,
        final(history)@.last().timestamp == now,
{
    let details = end.details();
    history.record_at(end.operation(), actor, details.as_str(), now);
}

/// Appends the entry that the end of a command owes to the log, with the current time, and hands a
/// copy of it back.
pub fn log_end(history: &mut History, actor: &str, end: &CommandEnd) -> (out: HistoryEntry)
    ensures
        final(history).key() == old(history).key(),
        final(history).file() == old(history).file(),
        logged(
            old(history)@,
            final(history)@,
            old(history).key(),
            end.kind(),
            actor@,
            end.json(),
        ),
        out.version == HISTORY_VERSION,
        clock_shows(out.timestamp),
        out.timestamp == final(history)@.last().timestamp,
        out.operation == end.kind(),
        out.actor@ == actor@,
        out.details@ == end.json(),
        out.signature@ == final(history)@.last().signature@,
        out.prev_signature@ == final(history)@.last().prev_signature@,
{
    log_end_at(history, actor, end, read_clock());
    let log = history.entries();
    log[log.len() - 1].clone()
}

/// Each command has an operation of its own in the log.
pub proof fn commands_are_told_apart(end: CommandEnd)
    ensures
        end.kind() == Operation::Init <==> end is Init,
        end.kind() == Operation::Backup <==> end is Backup,
        end.kind() == Operation::Prune <==> end is Prune,
        end.kind() == Operation::KeyRotate <==> end is KeyRotate,
        end.kind() == Operation::Restore <==> end is Restore,
        end.kind() == Operation::Verify <==> end is Verify,
{
}

/// What is logged of each command's end, as JSON.
pub proof fn ends_are_described(id: String, a: u64, b: u64, c: u64, d: u64)
    ensures
        CommandEnd::Init.json() == "{}"@,
        CommandEnd::KeyRotate.json() == "{}"@,
        (CommandEnd::Restore { snapshot_id: id }).json() == "{\"snapshot_id\":"@ + json_quoted(
            id@,
        ) + "}"@,
        (CommandEnd::Prune { snapshots: a, chunks: b }).json() == "{\"dropped_snapshots\":"@
            + decimal(a as nat) + ",\"removed_chunks\":"@ + decimal(b as nat) + "}"@,
        (CommandEnd::Backup { snapshot_id: Some(id), chunks: a }).json() == "{\"chunk_count\":"@
            + decimal(a as nat) + ",\"snapshot_id\":"@ + json_quoted(id@) + "}"@,
        (CommandEnd::Verify { verified: a, missing: b, corrupted: c, manifest_errors: d }).json()
            == "{\"corrupted\":"@ + decimal(c as nat) + ",\"manifest_errors\":"@ + decimal(
            d as nat,
        ) + ",\"missing\":"@ + decimal(b as nat) + ",\"verified\":"@ + decimal(a as nat) + "}"@,
{
}

} // verus!
