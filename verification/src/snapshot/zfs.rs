//! ZFS snapshots: read through the snapshot directory of the dataset, or through a clone where
//! that directory is hidden.
//!
//! Taking one is a sequence of steps that another part of the program carries out: it asks
//! [`ZfsCreation`] for the next step and hands back how it ended.
use crate::error::LazarusError;
use crate::paths::join_path;
use crate::paths::joined_path;
use crate::reading::decimals_tell_numbers_apart;
use crate::snapshot::snapshotter::trim_text;
use crate::snapshot::snapshotter::BlockSnapshotter;
use crate::snapshot::snapshotter::ConsistentMount;
use crate::snapshot::snapshotter::HostProbe;
use crate::snapshot::snapshotter::ToolCall;
use crate::snapshot::snapshotter::ToolResult;
use crate::text::concat2;
use crate::text::concat3;
use crate::text::copy_text;
use crate::text::decimal;
use crate::text::decimal_string;
use crate::text::has_prefix;
use crate::text::same_text;
use crate::text::to_chars;
use crate::text::trim;
use vstd::prelude::*;

verus! {

/// The tag of a snapshot that is taken at a time.
pub open spec fn snap_tag_at(now: u64) -> Seq<char> {
    "lazarus-"@ + decimal(now as nat)
}

/// The tag of a snapshot that is taken at a time.
pub fn default_snap_tag(now: u64) -> (out: String)
    ensures
        out@ == snap_tag_at(now),
{
    concat2("lazarus-", decimal_string(now).as_str())
}

// --- Reading what the tool says ------------------------------------------------------------

/// The dataset that holds a path, from the output of `zfs list`.
pub fn resolve_dataset(result: ToolResult) -> (out: Result<String, LazarusError>)
    ensures
        out is Ok <==> result.succeeded() && trim(result->stdout@).len() > 0,
        match out {
            Ok(name) => name@ == trim(result->stdout@),
            Err(e) => e is Storage && e.detail() == if result.succeeded() {
                "zfs list returned empty dataset name"@
            } else {
                result.failure("zfs"@, "zfs list"@)
            },
        },
{
    match result.output("zfs", "zfs list") {
        Ok(stdout) => {
            let name = trim_text(stdout.as_str());
            if to_chars(name.as_str()).len() == 0 {
                Err(LazarusError::Storage(copy_text("zfs list returned empty dataset name")))
            } else {
                Ok(name)
            }
        },
        Err(e) => Err(e),
    }
}

/// Whether a mountpoint property names a directory.
pub open spec fn usable_mountpoint(s: Seq<char>) -> bool {
    s.len() > 0 && s != "-"@ && s != "none"@ && s != "legacy"@
}

/// The text of the error for a mountpoint that cannot be had.
pub open spec fn mountpoint_error(dataset: Seq<char>, result: ToolResult) -> Seq<char> {
    if result.succeeded() {
        "dataset "@ + dataset + " has no usable mountpoint ("@ + trim(result->stdout@) + ")"@
    } else {
        result.failure("zfs"@, "zfs get mountpoint"@)
    }
}

/// Where a dataset is mounted, from the output of `zfs get`.
pub fn dataset_mountpoint(dataset: &str, result: ToolResult) -> (out: Result<String, LazarusError>)
    ensures
        out is Ok <==> result.succeeded() && usable_mountpoint(trim(result->stdout@)),
        match out {
            Ok(path) => path@ == trim(result->stdout@),
            Err(e) => e is Storage && e.detail() == mountpoint_error(dataset@, result),
        },
{
    match result.output("zfs", "zfs get mountpoint") {
        Ok(stdout) => {
            let s = trim_text(stdout.as_str());
            if to_chars(s.as_str()).len() == 0 || same_text(s.as_str(), "-") || same_text(
                s.as_str(),
                "none",
            ) || same_text(s.as_str(), "legacy") {
                let front = concat3("dataset ", dataset, " has no usable mountpoint (");
                return Err(
                    LazarusError::Storage(concat3(front.as_str(), s.as_str(), ")")),
                );
            }
            Ok(s)
        },
        Err(e) => Err(e),
    }
}

// --- Taking a snapshot ---------------------------------------------------------------------

/// What has to be done next.
#[derive(Debug)]
pub enum ZfsStep {
    Run(ToolCall),
    /// Find out whether the path exists.
    Look(String),
}

/// How a step ended.
#[derive(Debug)]
pub enum ZfsReply {
    Ran(ToolResult),
    Present(bool),
}

/// How far a snapshot has come.
pub enum ZfsStage {
    /// The dataset has to be found.
    Dataset,
    /// The mountpoint of the dataset has to be found.
    Mountpoint { dataset: String },
    /// The snapshot has to be taken.
    Snapshot { dataset: String, mountpoint: String },
    /// The snapshot is there; is it visible below the mountpoint?
    Visible { dataset: String, mountpoint: String },
    /// It is not: a clone has to be made.
    Clone { dataset: String },
    /// The clone is there; its mountpoint has to be found.
    CloneMountpoint { dataset: String },
    /// Something failed, and the snapshot has to be destroyed before the error is reported.
    Undo { dataset: String, cause: LazarusError },
}

/// A snapshot that is being taken.
pub struct ZfsCreation {
    pub source: String,
    pub tag: String,
    pub stage: ZfsStage,
}

/// What became of a step.
pub enum ZfsProgress {
    More(ZfsCreation),
    Ready(ZfsSnapshot),
    Failed(LazarusError),
}

/// The name of a snapshot of a dataset.
pub open spec fn snapshot_of(dataset: Seq<char>, tag: Seq<char>) -> Seq<char> {
    dataset + "@"@ + tag
}

/// The name of the clone of a snapshot.
pub open spec fn clone_of(dataset: Seq<char>, tag: Seq<char>) -> Seq<char> {
    dataset + "_lazarus_clone_"@ + tag
}

/// The directory through which a snapshot can be read.
pub open spec fn visible_dir(mountpoint: Seq<char>, tag: Seq<char>) -> Seq<char> {
    joined_path(joined_path(joined_path(mountpoint, ".zfs"@), "snapshot"@), tag)
}

fn visible_text(mountpoint: &str, tag: &str) -> (out: String)
    ensures
        out@ == visible_dir(mountpoint@, tag@),
{
    let a = join_path(mountpoint, ".zfs");
    let b = join_path(a.as_str(), "snapshot");
    join_path(b.as_str(), tag)
}

fn mountpoint_call(dataset: &str) -> (out: ToolCall)
    ensures
        out@ == seq!["zfs"@, "get"@, "-H"@, "-o"@, "value"@, "mountpoint"@, dataset@],
{
    ToolCall::new("zfs").arg("get").arg("-H").arg("-o").arg("value").arg("mountpoint").arg(dataset)
}

/// The command that lists the dataset of a path.
pub fn list_call(path: &str) -> (out: ToolCall)
    ensures
        out@ == seq!["zfs"@, "list"@, "-H"@, "-o"@, "name"@, path@],
{
    ToolCall::new("zfs").arg("list").arg("-H").arg("-o").arg("name").arg(path)
}

/// The command that destroys a snapshot or a clone.
pub fn destroy_call(name: &str) -> (out: ToolCall)
    ensures
        out@ == seq!["zfs"@, "destroy"@, name@],
{
    ToolCall::new("zfs").arg("destroy").arg(name)
}

/// How destroying a snapshot ended.
pub fn destroy_result(result: ToolResult) -> (out: Result<(), LazarusError>)
    ensures
        out is Ok <==> result.succeeded(),
        out matches Err(e) ==> e is Storage && e.detail() == result.failure(
            "zfs"@,
            "zfs destroy"@,
        ),
{
    match result.output("zfs", "zfs destroy") {
        Ok(_) => Ok(()),
        Err(e) => Err(e),
    }
}

impl ZfsStage {
    /// Whether the snapshot exists at this stage.
    pub open spec fn snapshot_exists(self) -> bool {
        match self {
            ZfsStage::Dataset => false,
            ZfsStage::Mountpoint { .. } => false,
            ZfsStage::Snapshot { .. } => false,
            _ => true,
        }
    }
}

impl ZfsCreation {
    /// The next step.
    pub fn request(&self) -> (out: ZfsStep)
        ensures
            match self.stage {
                ZfsStage::Dataset => out matches ZfsStep::Run(call) && call@ == seq![
                    "zfs"@,
                    "list"@,
                    "-H"@,
                    "-o"@,
                    "name"@,
                    self.source@,
                ],
                ZfsStage::Mountpoint { dataset } => out matches ZfsStep::Run(call) && call@ == seq![
                    "zfs"@,
                    "get"@,
                    "-H"@,
                    "-o"@,
                    "value"@,
                    "mountpoint"@,
                    dataset@,
                ],
                ZfsStage::Snapshot { dataset, .. } => out matches ZfsStep::Run(call) && call@
                    == seq!["zfs"@, "snapshot"@, snapshot_of(dataset@, self.tag@)],
                ZfsStage::Visible { mountpoint, .. } => out matches ZfsStep::Look(path) && path@
                    == visible_dir(mountpoint@, self.tag@),
                ZfsStage::Clone { dataset } => out matches ZfsStep::Run(call) && call@ == seq![
                    "zfs"@,
                    "clone"@,
                    snapshot_of(dataset@, self.tag@),
                    clone_of(dataset@, self.tag@),
                ],
                ZfsStage::CloneMountpoint { dataset } => out matches ZfsStep::Run(call) && call@
                    == seq![
                    "zfs"@,
                    "get"@,
                    "-H"@,
                    "-o"@,
                    "value"@,
                    "mountpoint"@,
                    clone_of(dataset@, self.tag@),
                ],
                ZfsStage::Undo { dataset, .. } => out matches ZfsStep::Run(call) && call@ == seq![
                    "zfs"@,
                    "destroy"@,
                    snapshot_of(dataset@, self.tag@),
                ],
            },
    {
        let tag = self.tag.as_str();
        match &self.stage {
            ZfsStage::Dataset => ZfsStep::Run(list_call(self.source.as_str())),
            ZfsStage::Mountpoint { dataset } => ZfsStep::Run(mountpoint_call(dataset.as_str())),
            ZfsStage::Snapshot { dataset, .. } => {
                let name = concat3(dataset.as_str(), "@", tag);
                ZfsStep::Run(ToolCall::new("zfs").arg("snapshot").arg(name.as_str()))
            },
            ZfsStage::Visible { mountpoint, .. } => ZfsStep::Look(
                visible_text(mountpoint.as_str(), tag),
            ),
            ZfsStage::Clone { dataset } => {
                let name = concat3(dataset.as_str(), "@", tag);
                let clone = concat3(dataset.as_str(), "_lazarus_clone_", tag);
                ZfsStep::Run(
                    ToolCall::new("zfs").arg("clone").arg(name.as_str()).arg(clone.as_str()),
                )
            },
            ZfsStage::CloneMountpoint { dataset } => {
                let clone = concat3(dataset.as_str(), "_lazarus_clone_", tag);
                ZfsStep::Run(mountpoint_call(clone.as_str()))
            },
            ZfsStage::Undo { dataset, .. } => {
                let name = concat3(dataset.as_str(), "@", tag);
                ZfsStep::Run(destroy_call(name.as_str()))
            },
        }
    }

    /// Whether the reply fits the step that was asked for.
    pub open spec fn fits(&self, reply: ZfsReply) -> bool {
        self.stage is Visible <==> reply is Present
    }

    /// Goes on after a step. Once the snapshot exists, a failure is reported only after the step
    /// that destroys it.
    pub fn answer(self, reply: ZfsReply) -> (out: ZfsProgress)
        requires
            self.fits(reply),
        ensures
            out is Failed && self.stage.snapshot_exists() ==> self.stage is Undo,
            out matches ZfsProgress::More(next) ==> next.source@ == self.source@ && next.tag@
                == self.tag@,
            match (self.stage, reply) {
                (ZfsStage::Dataset, ZfsReply::Ran(r)) => {
                    let name = trim(r->stdout@);
                    if r.succeeded() && name.len() > 0 {
                        out matches ZfsProgress::More(next)
                            && next.stage matches ZfsStage::Mountpoint { dataset } && dataset@
                            == name
                    } else {
                        out matches ZfsProgress::Failed(e) && e is Storage && e.detail()
                            == if r.succeeded() {
                            "zfs list returned empty dataset name"@
                        } else {
                            r.failure("zfs"@, "zfs list"@)
                        }
                    }
                },
                (ZfsStage::Mountpoint { dataset }, ZfsReply::Ran(r)) => {
                    let path = trim(r->stdout@);
                    if r.succeeded() && usable_mountpoint(path) {
                        out matches ZfsProgress::More(next)
                            && next.stage matches ZfsStage::Snapshot { dataset: d, mountpoint: m }
                            && d@ == dataset@ && m@ == path
                    } else {
                        out matches ZfsProgress::Failed(e) && e is Storage && e.detail()
                            == mountpoint_error(dataset@, r)
                    }
                },
                (ZfsStage::Snapshot { dataset, mountpoint }, ZfsReply::Ran(r)) => if r.succeeded() {
                    out matches ZfsProgress::More(next)
                        && next.stage matches ZfsStage::Visible { dataset: d, mountpoint: m } && d@
                        == dataset@ && m@ == mountpoint@
                } else {
                    out matches ZfsProgress::Failed(e) && e is Storage && e.detail() == r.failure(
                        "zfs"@,
                        "zfs snapshot"@,
                    )
                },
                (ZfsStage::Visible { dataset, mountpoint }, ZfsReply::Present(yes)) => if yes {
                    out matches ZfsProgress::Ready(snap) && snap.snapshot_name@ == snapshot_of(
                        dataset@,
                        self.tag@,
                    ) && snap.clone_name is None && snap.visible_path@ == visible_dir(
                        mountpoint@,
                        self.tag@,
                    ) && !snap.released
                } else {
                    out matches ZfsProgress::More(next)
                        && next.stage matches ZfsStage::Clone { dataset: d } && d@ == dataset@
                },
                (ZfsStage::Clone { dataset }, ZfsReply::Ran(r)) => {
                    &&& out matches ZfsProgress::More(next)
                    &&& if r.succeeded() {
                        next.stage matches ZfsStage::CloneMountpoint { dataset: d } && d@
                            == dataset@
                    } else {
                        next.stage matches ZfsStage::Undo { dataset: d, cause } && d@ == dataset@
                            && cause is Storage && cause.detail() == r.failure(
                            "zfs clone"@,
                            "zfs clone"@,
                        )
                    }
                },
                (ZfsStage::CloneMountpoint { dataset }, ZfsReply::Ran(r)) => {
                    let clone = clone_of(dataset@, self.tag@);
                    &&& out matches ZfsProgress::Ready(snap)
                    &&& snap.snapshot_name@ == snapshot_of(dataset@, self.tag@)
                    &&& snap.clone_name is Some
                    &&& snap.clone_name->0@ == clone
                    &&& !snap.released
                    &&& snap.visible_path@ == if r.succeeded() && usable_mountpoint(
                        trim(r->stdout@),
                    ) {
                        trim(r->stdout@)
                    } else {
                        "/"@ + clone
                    }
                },
                (ZfsStage::Undo { cause, .. }, _) => out == ZfsProgress::Failed(cause),
                _ => false,
            },
    {
        let ZfsCreation { source, tag, stage } = self;
        let next_stage = match stage {
            ZfsStage::Undo { cause, .. } => {
                return ZfsProgress::Failed(cause);
            },
            ZfsStage::Visible { dataset, mountpoint } => {
                let yes = match reply {
                    ZfsReply::Present(p) => p,
                    ZfsReply::Ran(_) => false,
                };
                if yes {
                    return ZfsProgress::Ready(
                        ZfsSnapshot {
                            snapshot_name: concat3(dataset.as_str(), "@", tag.as_str()),
                            clone_name: None,
                            visible_path: visible_text(mountpoint.as_str(), tag.as_str()),
                            released: false,
                        },
                    );
                }
                ZfsStage::Clone { dataset }
            },
            other => {
                let result = match reply {
                    ZfsReply::Ran(r) => r,
                    ZfsReply::Present(_) => ToolResult::NotRunnable(String::new()),
                };
                match other {
                    ZfsStage::Dataset => match resolve_dataset(result) {
                        Ok(dataset) => ZfsStage::Mountpoint { dataset },
                        Err(e) => {
                            return ZfsProgress::Failed(e);
                        },
                    },
                    ZfsStage::Mountpoint { dataset } => match dataset_mountpoint(
                        dataset.as_str(),
                        result,
                    ) {
                        Ok(mountpoint) => ZfsStage::Snapshot { dataset, mountpoint },
                        Err(e) => {
                            return ZfsProgress::Failed(e);
                        },
                    },
                    ZfsStage::Snapshot { dataset, mountpoint } => match result.output(
                        "zfs",
                        "zfs snapshot",
                    ) {
                        Ok(_) => ZfsStage::Visible { dataset, mountpoint },
                        Err(e) => {
                            return ZfsProgress::Failed(e);
                        },
                    },
                    ZfsStage::Clone { dataset } => match result.output("zfs clone", "zfs clone") {
                        Ok(_) => ZfsStage::CloneMountpoint { dataset },
                        Err(cause) => ZfsStage::Undo { dataset, cause },
                    },
                    ZfsStage::CloneMountpoint { dataset } => {
                        let clone = concat3(dataset.as_str(), "_lazarus_clone_", tag.as_str());
                        let visible_path = match dataset_mountpoint(clone.as_str(), result) {
                            Ok(path) => path,
                            Err(_) => concat2("/", clone.as_str()),
                        };
                        return ZfsProgress::Ready(
                            ZfsSnapshot {
                                snapshot_name: concat3(dataset.as_str(), "@", tag.as_str()),
                                clone_name: Some(clone),
                                visible_path,
                                released: false,
                            },
                        );
                    },
                    same => same,
                }
            },
        };
        ZfsProgress::More(ZfsCreation { source, tag, stage: next_stage })
    }
}

// --- Snapshots -----------------------------------------------------------------------------

/// A snapshot and the path through which it is read.
pub struct ZfsSnapshot {
    /// The dataset and the tag.
    pub snapshot_name: String,
    /// The clone, where one was needed.
    pub clone_name: Option<String>,
    pub visible_path: String,
    pub released: bool,
}

/// What has to be done to take a snapshot down, in this order: a snapshot with a clone cannot be
/// destroyed before the clone.
pub struct ZfsTeardown {
    pub destroy_clone: Option<ToolCall>,
    pub destroy_snapshot: ToolCall,
}

impl ZfsSnapshot {
    /// Starts to take a snapshot of the dataset that holds a path, under a tag made from the time.
    pub fn create(linux: bool, freebsd: bool, source: &str, now: u64) -> (out: Result<
        ZfsCreation,
        LazarusError,
    >)
        ensures
            out is Ok <==> linux || freebsd,
            match out {
                Ok(c) => c.source@ == source@ && c.tag@ == snap_tag_at(now) && c.stage is Dataset,
                Err(e) => e is Storage && e.detail()
                    == "ZFS snapshots are only supported on Linux and FreeBSD"@,
            },
    {
        if !linux && !freebsd {
            return Err(
                LazarusError::Storage(
                    copy_text("ZFS snapshots are only supported on Linux and FreeBSD"),
                ),
            );
        }
        Ok(
            ZfsCreation {
                source: copy_text(source),
                tag: default_snap_tag(now),
                stage: ZfsStage::Dataset,
            },
        )
    }

    /// The path through which the snapshot is read.
    pub fn visible_path(&self) -> (out: &str)
        ensures
            out@ == self.visible_path@,
    {
        self.visible_path.as_str()
    }

    /// The name of the snapshot.
    pub fn snapshot_name(&self) -> (out: &str)
        ensures
            out@ == self.snapshot_name@,
    {
        self.snapshot_name.as_str()
    }

    /// Starts to take the snapshot down. A second call has nothing left to do.
    pub fn release(&mut self) -> (out: Option<ZfsTeardown>)
        ensures
            final(self).released,
            final(self).snapshot_name == old(self).snapshot_name,
            final(self).clone_name == old(self).clone_name,
            final(self).visible_path == old(self).visible_path,
            out is None <==> old(self).released,
            out matches Some(t) ==> {
                &&& t.destroy_snapshot@ == seq!["zfs"@, "destroy"@, old(self).snapshot_name@]
                &&& t.destroy_clone is Some <==> old(self).clone_name is Some
                &&& t.destroy_clone matches Some(call) ==> call@ == seq![
                    "zfs"@,
                    "destroy"@,
                    old(self).clone_name->0@,
                ]
            },
    {
        if self.released {
            return None;
        }
        self.released = true;
        let destroy_clone = match &self.clone_name {
            Some(clone) => Some(destroy_call(clone.as_str())),
            None => None,
        };
        Some(
            ZfsTeardown {
                destroy_clone,
                destroy_snapshot: destroy_call(self.snapshot_name.as_str()),
            },
        )
    }
}

impl ConsistentMount for ZfsSnapshot {
    open spec fn place(&self) -> Seq<char> {
        self.visible_path@
    }

    fn path(&self) -> (out: &str) {
        self.visible_path.as_str()
    }
}

/// Takes snapshots with ZFS.
pub struct ZfsSnapshotter;

impl BlockSnapshotter for ZfsSnapshotter {
    open spec fn handles(path: Seq<char>, host: HostProbe) -> bool {
        host.zfs_list.succeeded() && host.zfs_list->stdout@.len() > 0
    }

    fn supports(path: &str, host: &HostProbe) -> (out: bool) {
        match &host.zfs_list {
            ToolResult::NotRunnable(_) => false,
            ToolResult::Done { success, stdout, .. } => *success && to_chars(stdout.as_str()).len()
                > 0,
        }
    }
}

impl ZfsSnapshotter {
    /// Starts to take a snapshot of a source at a time.
    pub fn snapshot(&self, linux: bool, freebsd: bool, source: &str, now: u64) -> (out: Result<
        ZfsCreation,
        LazarusError,
    >)
        ensures
            out is Ok <==> linux || freebsd,
            match out {
                Ok(c) => c.source@ == source@ && c.tag@ == snap_tag_at(now) && c.stage is Dataset,
                Err(e) => e is Storage && e.detail()
                    == "ZFS snapshots are only supported on Linux and FreeBSD"@,
            },
    {
        ZfsSnapshot::create(linux, freebsd, source, now)
    }
}

/// What `zfs` calls no mountpoint is none: nothing, a hyphen, `none` and `legacy`.
pub proof fn unusable_mountpoints(s: Seq<char>)
    ensures
        !usable_mountpoint(Seq::empty()),
        !usable_mountpoint("-"@),
        !usable_mountpoint("none"@),
        !usable_mountpoint("legacy"@),
        s.len() > 0 && s[0] == '/' ==> usable_mountpoint(s),
{
    reveal_strlit("-");
    reveal_strlit("none");
    reveal_strlit("legacy");
}

/// The snapshot of a dataset, its clone and the directory through which it can be read.
pub proof fn zfs_names(dataset: Seq<char>, tag: Seq<char>, mountpoint: Seq<char>)
    requires
        mountpoint.len() > 0,
        mountpoint.last() != '/',
        tag.len() > 0,
        tag[0] != '/',
    ensures
        snapshot_of(dataset, tag) == dataset + "@"@ + tag,
        clone_of(dataset, tag) == dataset + "_lazarus_clone_"@ + tag,
        visible_dir(mountpoint, tag) == mountpoint + "/.zfs/snapshot/"@ + tag,
{
    reveal_strlit(".zfs");
    reveal_strlit("snapshot");
    reveal_strlit("/");
    reveal_strlit("/.zfs/snapshot/");
    assert(visible_dir(mountpoint, tag) =~= mountpoint + "/.zfs/snapshot/"@ + tag);
}

/// Tags of different times are different.
pub proof fn tags_tell_times_apart(a: u64, b: u64)
    requires
        snap_tag_at(a) == snap_tag_at(b),
    ensures
        a == b,
        has_prefix(snap_tag_at(a), "lazarus-"@),
{
    let front = "lazarus-"@;
    assert(snap_tag_at(a).skip(front.len() as int) =~= decimal(a as nat));
    assert(snap_tag_at(b).skip(front.len() as int) =~= decimal(b as nat));
    assert(snap_tag_at(a).take(front.len() as int) =~= front);
    decimals_tell_numbers_apart(a as nat, b as nat);
}

/// ZFS takes snapshots where `zfs` knows a dataset for the path.
pub proof fn zfs_needs_a_dataset(path: Seq<char>, host: HostProbe)
    ensures
        ZfsSnapshotter::handles(path, host) <==> (host.zfs_list matches ToolResult::Done {
            success,
            stdout,
            ..
        } && success && stdout@.len() > 0),
{
}

/// The snapshot exists from the stage behind its creation on, so a failure there has to remove it.
pub proof fn snapshots_exist_once_taken(stage: ZfsStage)
    ensures
        stage is Dataset || stage is Mountpoint || stage is Snapshot <==> !stage.snapshot_exists(),
{
}

} // verus!
