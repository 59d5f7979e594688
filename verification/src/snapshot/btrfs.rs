//! Btrfs snapshots: a read-only subvolume beside the source.
use crate::error::LazarusError;
use crate::paths::join_path;
use crate::paths::joined_path;
use crate::snapshot::snapshotter::default_snap_name;
use crate::snapshot::snapshotter::snap_name_at;
use crate::snapshot::snapshotter::BlockSnapshotter;
use crate::snapshot::snapshotter::ConsistentMount;
use crate::snapshot::snapshotter::HostProbe;
use crate::snapshot::snapshotter::ToolCall;
use crate::snapshot::snapshotter::ToolResult;
use crate::text::copy_text;
use vstd::prelude::*;

verus! {

/// Where snapshots are placed unless another place is given. It must be on the file system of the
/// source.
pub const DEFAULT_SNAPSHOT_PARENT: &'static str = "/var/lib/lazarus/btrfs-snaps";

/// The type that the system reports for a Btrfs file system.
pub const BTRFS_SUPER_MAGIC: i64 = 0x9123683E;

/// A snapshot that is being taken: the parent directory has to exist, then the command has to be
/// run.
pub struct BtrfsCreation {
    pub source: String,
    pub parent: String,
    pub snapshot_path: String,
}

/// A read-only subvolume.
pub struct BtrfsSnapshot {
    pub source: String,
    pub snapshot_path: String,
    pub released: bool,
}

impl BtrfsCreation {
    /// The command that takes the snapshot.
    pub fn command(&self) -> (out: ToolCall)
        ensures
            out@ == seq![
                "btrfs"@,
                "subvolume"@,
                "snapshot"@,
                "-r"@,
                self.source@,
                self.snapshot_path@,
            ],
    {
        ToolCall::new("btrfs").arg("subvolume").arg("snapshot").arg("-r").arg(
            self.source.as_str(),
        ).arg(self.snapshot_path.as_str())
    }

    /// The snapshot, once the command has succeeded.
    pub fn finish(self, result: ToolResult) -> (out: Result<BtrfsSnapshot, LazarusError>)
        ensures
            out is Ok <==> result.succeeded(),
            match out {
                Ok(snap) => {
                    &&& snap.source@ == self.source@
                    &&& snap.snapshot_path@ == self.snapshot_path@
                    &&& !snap.released
                },
                Err(e) => e is Storage && e.detail() == result.failure(
                    "btrfs"@,
                    "btrfs subvolume snapshot"@,
                ),
            },
    {
        match result.output("btrfs", "btrfs subvolume snapshot") {
            Ok(_) => Ok(
                BtrfsSnapshot {
                    source: self.source,
                    snapshot_path: self.snapshot_path,
                    released: false,
                },
            ),
            Err(e) => Err(e),
        }
    }
}

impl BtrfsSnapshot {
    /// Starts to take a snapshot in the default place, under a name made from the time.
    pub fn create(linux: bool, source: &str, now: u64) -> (out: Result<BtrfsCreation, LazarusError>)
        ensures
            out is Ok <==> linux,
            match out {
                Ok(c) => {
                    &&& c.source@ == source@
                    &&& c.parent@ == DEFAULT_SNAPSHOT_PARENT@
                    &&& c.snapshot_path@ == joined_path(
                        DEFAULT_SNAPSHOT_PARENT@,
                        snap_name_at(now),
                    )
                },
                Err(e) => e is Storage && e.detail()
                    == "Btrfs snapshots are only supported on Linux"@,
            },
    {
        BtrfsSnapshot::create_in(linux, source, DEFAULT_SNAPSHOT_PARENT, now)
    }

    /// Starts to take a snapshot below a directory, under a name made from the time.
    pub fn create_in(linux: bool, source: &str, parent: &str, now: u64) -> (out: Result<
        BtrfsCreation,
        LazarusError,
    >)
        ensures
            out is Ok <==> linux,
            match out {
                Ok(c) => {
                    &&& c.source@ == source@
                    &&& c.parent@ == parent@
                    &&& c.snapshot_path@ == joined_path(parent@, snap_name_at(now))
                },
                Err(e) => e is Storage && e.detail()
                    == "Btrfs snapshots are only supported on Linux"@,
            },
    {
        if !linux {
            return Err(
                LazarusError::Storage(copy_text("Btrfs snapshots are only supported on Linux")),
            );
        }
        let name = default_snap_name(now);
        Ok(
            BtrfsCreation {
                source: copy_text(source),
                parent: copy_text(parent),
                snapshot_path: join_path(parent, name.as_str()),
            },
        )
    }

    /// The subvolume that the snapshot was taken of.
    pub fn origin(&self) -> (out: &str)
        ensures
            out@ == self.source@,
    {
        self.source.as_str()
    }

    /// The subvolume of the snapshot.
    pub fn snapshot_path(&self) -> (out: &str)
        ensures
            out@ == self.snapshot_path@,
    {
        self.snapshot_path.as_str()
    }

    /// The command that deletes the snapshot. A second call has nothing left to do.
    pub fn release(&mut self) -> (out: Option<ToolCall>)
        ensures
            final(self).released,
            final(self).source == old(self).source,
            final(self).snapshot_path == old(self).snapshot_path,
            out is None <==> old(self).released,
            out matches Some(call) ==> call@ == seq![
                "btrfs"@,
                "subvolume"@,
                "delete"@,
                old(self).snapshot_path@,
            ],
    {
        if self.released {
            return None;
        }
        self.released = true;
        Some(
            ToolCall::new("btrfs").arg("subvolume").arg("delete").arg(self.snapshot_path.as_str()),
        )
    }
}

/// How deleting a snapshot ended.
pub fn delete_result(result: ToolResult) -> (out: Result<(), LazarusError>)
    ensures
        out is Ok <==> result.succeeded(),
        out matches Err(e) ==> e is Storage && e.detail() == result.failure(
            "btrfs"@,
            "btrfs subvolume delete"@,
        ),
{
    match result.output("btrfs", "btrfs subvolume delete") {
        Ok(_) => Ok(()),
        Err(e) => Err(e),
    }
}

impl ConsistentMount for BtrfsSnapshot {
    open spec fn place(&self) -> Seq<char> {
        self.snapshot_path@
    }

    fn path(&self) -> (out: &str) {
        self.snapshot_path.as_str()
    }
}

/// Takes snapshots with Btrfs.
pub struct BtrfsSnapshotter;

impl BlockSnapshotter for BtrfsSnapshotter {
    open spec fn handles(path: Seq<char>, host: HostProbe) -> bool {
        host.linux && host.fs_type == Some(BTRFS_SUPER_MAGIC)
    }

    fn supports(path: &str, host: &HostProbe) -> (out: bool) {
        host.linux && match host.fs_type {
            Some(t) => t == BTRFS_SUPER_MAGIC,
            None => false,
        }
    }
}

impl BtrfsSnapshotter {
    /// Starts to take a snapshot of a source at a time.
    pub fn snapshot(&self, linux: bool, source: &str, now: u64) -> (out: Result<
        BtrfsCreation,
        LazarusError,
    >)
        ensures
            out is Ok <==> linux,
            match out {
                Ok(c) => {
                    &&& c.source@ == source@
                    &&& c.parent@ == DEFAULT_SNAPSHOT_PARENT@
                    &&& c.snapshot_path@ == joined_path(
                        DEFAULT_SNAPSHOT_PARENT@,
                        snap_name_at(now),
                    )
                },
                Err(e) => e is Storage && e.detail()
                    == "Btrfs snapshots are only supported on Linux"@,
            },
    {
        BtrfsSnapshot::create(linux, source, now)
    }
}

/// Btrfs takes snapshots on Linux only, where the file system has the magic number of Btrfs.
pub proof fn btrfs_needs_its_file_system(path: Seq<char>, host: HostProbe)
    ensures
        BtrfsSnapshotter::handles(path, host) <==> host.linux && host.fs_type == Some(
            0x9123683Ei64,
        ),
{
}

/// Where snapshots are kept unless another place is named.
pub proof fn the_usual_place()
    ensures
        DEFAULT_SNAPSHOT_PARENT@ == "/var/lib/lazarus/btrfs-snaps"@,
{
}

} // verus!
