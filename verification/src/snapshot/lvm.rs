//! LVM snapshots: a copy-on-write volume beside the origin, mounted read-only.
//!
//! Taking one is a sequence of steps that another part of the program carries out: it asks
//! [`LvmCreation`] for the next step and hands back how it ended.
use crate::error::LazarusError;
use crate::paths::join_path;
use crate::paths::joined_path;
use crate::reading::first_fields;
use crate::reading::lacks_char;
use crate::reading::lone_fields;
use crate::snapshot::snapshotter::default_snap_name;
use crate::snapshot::snapshotter::snap_name_at;
use crate::snapshot::snapshotter::BlockSnapshotter;
use crate::snapshot::snapshotter::ConsistentMount;
use crate::snapshot::snapshotter::HostProbe;
use crate::snapshot::snapshotter::ToolCall;
use crate::snapshot::snapshotter::ToolResult;
use crate::text::after_prefix;
use crate::text::concat2;
use crate::text::concat3;
use crate::text::contains_part;
use crate::text::copy_text;
use crate::text::cut_once;
use crate::text::decimal;
use crate::text::find_char_range;
use crate::text::from_chars;
use crate::text::has_part;
use crate::text::has_prefix;
use crate::text::occurs_at;
use crate::text::position_of;
use crate::text::split;
use crate::text::split_on;
use crate::text::split_once;
use crate::text::strip_prefix;
use crate::text::to_chars;
use crate::text::views;
use vstd::prelude::*;

verus! {

/// The size of the copy-on-write pool unless another is given.
pub const DEFAULT_COW_SIZE: &'static str = "5G";

/// Where snapshots are mounted unless another place is given.
pub const DEFAULT_MOUNT_ROOT: &'static str = "/var/lib/lazarus/mounts";

/// How a snapshot is to be taken.
#[derive(Debug)]
pub struct LvmSnapshotOpts {
    /// The size of the copy-on-write pool.
    pub cow_size: String,
    /// The directory below which the snapshot is mounted.
    pub mount_root: String,
    /// The name of the snapshot volume; by default it is made from the time.
    pub snapshot_name: Option<String>,
}

impl Default for LvmSnapshotOpts {
    fn default() -> (out: Self)
        ensures
            out.cow_size@ == DEFAULT_COW_SIZE@,
            out.mount_root@ == DEFAULT_MOUNT_ROOT@,
            out.snapshot_name is None,
    {
        LvmSnapshotOpts {
            cow_size: copy_text(DEFAULT_COW_SIZE),
            mount_root: copy_text(DEFAULT_MOUNT_ROOT),
            snapshot_name: None,
        }
    }
}

// --- Names ---------------------------------------------------------------------------------

/// The volume group and the volume that a path names, or the text of the error: `/dev/<vg>/<lv>`
/// or `/dev/mapper/<vg>-<lv>`.
pub open spec fn lv_of_path(s: Seq<char>) -> Result<(Seq<char>, Seq<char>), Seq<char>> {
    let mapper = after_prefix(s, "/dev/mapper/"@);
    let dev = after_prefix(s, "/dev/"@);
    if mapper is Some && has_part(mapper->0, "--"@) {
        Err("ambiguous /dev/mapper name (contains '--'); pass /dev/<vg>/<lv> instead: "@ + s)
    } else if mapper is Some && cut_once(mapper->0, '-') is Some {
        Ok(cut_once(mapper->0, '-')->0)
    } else if dev is Some && names_volume(dev->0) {
        Ok(cut_once(dev->0, '/')->0)
    } else {
        Err("not a recognizable LVM volume path: "@ + s)
    }
}

/// Whether a text is a volume group and a volume with one slash between them.
pub open spec fn names_volume(rest: Seq<char>) -> bool {
    &&& cut_once(rest, '/') is Some
    &&& (cut_once(rest, '/')->0).0.len() > 0
    &&& (cut_once(rest, '/')->0).1.len() > 0
    &&& !(cut_once(rest, '/')->0).1.contains('/')
}

fn has_slash(s: &[char]) -> (yes: bool)
    ensures
        yes == s@.contains('/'),
{
    let k = position_of(s, '/');
    proof {
        find_char_range(s@, '/');
    }
    k < s.len()
}

/// The volume group and the volume that a path names.
pub fn parse_lv_path(volume: &str) -> (out: Result<(String, String), LazarusError>)
    ensures
        match out {
            Ok((vg, lv)) => lv_of_path(volume@) == Ok::<_, Seq<char>>((vg@, lv@)),
            Err(e) => e is Storage && lv_of_path(volume@) == Err::<(Seq<char>, Seq<char>), _>(
                e.detail(),
            ),
        },
{
    let chars = to_chars(volume);
    if let Some(rest) = strip_prefix(chars.as_slice(), "/dev/mapper/") {
        if contains_part(rest.as_slice(), "--") {
            return Err(
                LazarusError::Storage(
                    concat2(
                        "ambiguous /dev/mapper name (contains '--'); pass /dev/<vg>/<lv> instead: ",
                        volume,
                    ),
                ),
            );
        }
        if let Some((vg, lv)) = split_once(rest.as_slice(), '-') {
            return Ok((from_chars(vg.as_slice()), from_chars(lv.as_slice())));
        }
    }
    if let Some(rest) = strip_prefix(chars.as_slice(), "/dev/") {
        if let Some((vg, lv)) = split_once(rest.as_slice(), '/') {
            if vg.len() > 0 && lv.len() > 0 && !has_slash(lv.as_slice()) {
                return Ok((from_chars(vg.as_slice()), from_chars(lv.as_slice())));
            }
        }
    }
    Err(LazarusError::Storage(concat2("not a recognizable LVM volume path: ", volume)))
}

pub open spec fn safe_name_char(c: char) -> bool {
    ('a' <= c <= 'z') || ('A' <= c <= 'Z') || ('0' <= c <= '9') || c == '_' || c == '-' || c == '.'
}

/// Whether a text can name a volume: 1 to 128 letters, digits, underscores, hyphens and dots.
pub open spec fn safe_lv_name(name: Seq<char>) -> bool {
    &&& 0 < name.len() <= 128
    &&& forall|i: int| 0 <= i < name.len() ==> safe_name_char(#[trigger] name[i])
}

/// Whether a text can name a volume.
pub fn is_safe_lv_name(name: &str) -> (yes: bool)
    ensures
        yes == safe_lv_name(name@),
{
    let chars = to_chars(name);
    if chars.len() == 0 || chars.len() > 128 {
        return false;
    }
    let mut i: usize = 0;
    while i < chars.len()
        invariant
            i <= chars@.len(),
            chars@ == name@,
            forall|j: int| 0 <= j < i ==> safe_name_char(#[trigger] name@[j]),
        decreases chars@.len() - i,
    {
        let c = chars[i];
        if !(('a' <= c && c <= 'z') || ('A' <= c && c <= 'Z') || ('0' <= c && c <= '9') || c == '_'
            || c == '-' || c == '.') {
            assert(!safe_name_char(name@[i as int]));
            return false;
        }
        i += 1;
    }
    true
}

/// Whether a path looks like that of a volume: something directly below `/dev/mapper/`, or two
/// names below `/dev/`.
pub open spec fn looks_like_volume(path: Seq<char>) -> bool {
    if after_prefix(path, "/dev/mapper/"@) is Some {
        let rest = after_prefix(path, "/dev/mapper/"@)->0;
        rest.len() > 0 && !rest.contains('/')
    } else if after_prefix(path, "/dev/"@) is Some {
        let parts = split_on(after_prefix(path, "/dev/"@)->0, '/');
        parts.len() == 2 && parts[0].len() > 0 && parts[1].len() > 0
    } else {
        false
    }
}

/// Whether a path looks like that of a volume.
pub fn path_is_lvm_volume(path: &str) -> (yes: bool)
    ensures
        yes == looks_like_volume(path@),
{
    let chars = to_chars(path);
    if let Some(rest) = strip_prefix(chars.as_slice(), "/dev/mapper/") {
        return rest.len() > 0 && !has_slash(rest.as_slice());
    }
    if let Some(rest) = strip_prefix(chars.as_slice(), "/dev/") {
        let parts = split(rest.as_slice(), '/');
        assert(views(parts@).len() == parts@.len());
        if parts.len() != 2 {
            return false;
        }
        assert(views(parts@)[0] == parts@[0]@);
        assert(views(parts@)[1] == parts@[1]@);
        return parts[0].len() > 0 && parts[1].len() > 0;
    }
    false
}

// --- Taking a snapshot ---------------------------------------------------------------------

/// What has to be done next.
#[derive(Debug)]
pub enum LvmStep {
    Run(ToolCall),
    MakeDir(String),
}

/// How a step ended.
#[derive(Debug)]
pub enum LvmReply {
    Ran(ToolResult),
    /// The directory exists, or the text of the error.
    Made(Result<(), String>),
}

/// How far a snapshot has come.
pub enum LvmStage {
    /// The volume has to be made.
    Volume,
    /// The volume is there, the mount point has to be made.
    MountPoint,
    /// The volume has to be mounted.
    Mount,
    /// Something failed, and the volume has to be removed before the error is reported.
    Undo(LazarusError),
}

/// A snapshot that is being taken.
pub struct LvmCreation {
    pub volume: String,
    pub vg_name: String,
    pub lv_name: String,
    pub snapshot_lv: String,
    pub cow_size: String,
    pub mount_root: String,
    pub stage: LvmStage,
}

/// What became of a step.
pub enum LvmProgress {
    More(LvmCreation),
    Ready(LvmSnapshot),
    Failed(LazarusError),
}

/// The name of a volume in its group.
pub open spec fn full_name(vg: Seq<char>, lv: Seq<char>) -> Seq<char> {
    vg + "/"@ + lv
}

/// The command that removes a volume.
pub open spec fn lvremove_words(vg: Seq<char>, lv: Seq<char>) -> Seq<Seq<char>> {
    seq!["lvremove"@, "-f"@, full_name(vg, lv)]
}

/// The command that removes a volume.
pub fn lvremove(vg: &str, lv: &str) -> (out: ToolCall)
    ensures
        out@ == lvremove_words(vg@, lv@),
{
    ToolCall::new("lvremove").arg("-f").arg(concat3(vg, "/", lv).as_str())
}

impl LvmCreation {
    /// The device of the snapshot volume.
    pub open spec fn device(&self) -> Seq<char> {
        "/dev/"@ + self.vg_name@ + "/"@ + self.snapshot_lv@
    }

    /// Where the snapshot is mounted.
    pub open spec fn mount_point(&self) -> Seq<char> {
        joined_path(self.mount_root@, self.snapshot_lv@)
    }

    /// Whether another one is the same but for its stage.
    pub open spec fn same_target(&self, other: LvmCreation) -> bool {
        &&& self.volume@ == other.volume@
        &&& self.vg_name@ == other.vg_name@
        &&& self.lv_name@ == other.lv_name@
        &&& self.snapshot_lv@ == other.snapshot_lv@
        &&& self.cow_size@ == other.cow_size@
        &&& self.mount_root@ == other.mount_root@
    }

    fn device_text(&self) -> (out: String)
        ensures
            out@ == self.device(),
    {
        let front = concat3("/dev/", self.vg_name.as_str(), "/");
        concat2(front.as_str(), self.snapshot_lv.as_str())
    }

    /// The next step.
    pub fn request(&self) -> (out: LvmStep)
        ensures
            match self.stage {
                LvmStage::Volume => out matches LvmStep::Run(call) && call@ == seq![
                    "lvcreate"@,
                    "--snapshot"@,
                    "--name"@,
                    self.snapshot_lv@,
                    "--size"@,
                    self.cow_size@,
                    full_name(self.vg_name@, self.lv_name@),
                ],
                LvmStage::MountPoint => out matches LvmStep::MakeDir(dir) && dir@
                    == self.mount_point(),
                LvmStage::Mount => out matches LvmStep::Run(call) && call@ == seq![
                    "mount"@,
                    "-o"@,
                    "ro"@,
                    self.device(),
                    self.mount_point(),
                ],
                LvmStage::Undo(_) => out matches LvmStep::Run(call) && call@ == lvremove_words(
                    self.vg_name@,
                    self.snapshot_lv@,
                ),
            },
    {
        match &self.stage {
            LvmStage::Volume => {
                let target = concat3(self.vg_name.as_str(), "/", self.lv_name.as_str());
                LvmStep::Run(
                    ToolCall::new("lvcreate").arg("--snapshot").arg("--name").arg(
                        self.snapshot_lv.as_str(),
                    ).arg("--size").arg(self.cow_size.as_str()).arg(target.as_str()),
                )
            },
            LvmStage::MountPoint => LvmStep::MakeDir(
                join_path(self.mount_root.as_str(), self.snapshot_lv.as_str()),
            ),
            LvmStage::Mount => {
                let device = self.device_text();
                let place = join_path(self.mount_root.as_str(), self.snapshot_lv.as_str());
                LvmStep::Run(
                    ToolCall::new("mount").arg("-o").arg("ro").arg(device.as_str()).arg(
                        place.as_str(),
                    ),
                )
            },
            LvmStage::Undo(_) => LvmStep::Run(
                lvremove(self.vg_name.as_str(), self.snapshot_lv.as_str()),
            ),
        }
    }

    /// Whether the reply fits the step that was asked for.
    pub open spec fn fits(&self, reply: LvmReply) -> bool {
        self.stage is MountPoint <==> reply is Made
    }

    /// Goes on after a step. Once the volume exists, a failure is reported only after the step
    /// that removes it.
    pub fn answer(self, reply: LvmReply) -> (out: LvmProgress)
        requires
            self.fits(reply),
        ensures
            out is Failed && self.volume_exists() ==> self.stage is Undo,
            match (self.stage, reply) {
                (LvmStage::Volume, LvmReply::Ran(r)) => if r.succeeded() {
                    out matches LvmProgress::More(next) && next.same_target(self)
                        && next.stage is MountPoint
                } else {
                    out matches LvmProgress::Failed(e) && e is Storage && e.detail() == r.failure(
                        "lvcreate"@,
                        "lvcreate"@,
                    )
                },
                (LvmStage::MountPoint, LvmReply::Made(r)) => {
                    &&& out matches LvmProgress::More(next)
                    &&& next.same_target(self)
                    &&& match r {
                        Ok(_) => next.stage is Mount,
                        Err(m) => next.stage matches LvmStage::Undo(e) && e is Io && e.detail()
                            == m@,
                    }
                },
                (LvmStage::Mount, LvmReply::Ran(r)) => if r.succeeded() {
                    out matches LvmProgress::Ready(snap) && snap.is_for(self) && !snap.released
                } else {
                    &&& out matches LvmProgress::More(next)
                    &&& next.same_target(self)
                    &&& next.stage matches LvmStage::Undo(e)
                    &&& e is Storage
                    &&& e.detail() == r.failure("mount"@, "mount"@)
                },
                (LvmStage::Undo(cause), _) => out == LvmProgress::Failed(cause),
                _ => false,
            },
    {
        let LvmCreation { volume, vg_name, lv_name, snapshot_lv, cow_size, mount_root, stage } =
            self;
        let next_stage = match stage {
            LvmStage::Undo(cause) => {
                return LvmProgress::Failed(cause);
            },
            LvmStage::Volume => match reply {
                LvmReply::Ran(r) => match r.output("lvcreate", "lvcreate") {
                    Ok(_) => LvmStage::MountPoint,
                    Err(e) => {
                        return LvmProgress::Failed(e);
                    },
                },
                LvmReply::Made(_) => LvmStage::MountPoint,
            },
            LvmStage::MountPoint => match reply {
                LvmReply::Made(r) => match r {
                    Ok(_) => LvmStage::Mount,
                    Err(m) => LvmStage::Undo(LazarusError::Io(m)),
                },
                LvmReply::Ran(_) => LvmStage::Mount,
            },
            LvmStage::Mount => match reply {
                LvmReply::Ran(r) => match r.output("mount", "mount") {
                    Ok(_) => {
                        let front = concat3("/dev/", vg_name.as_str(), "/");
                        let snapshot_dev = concat2(front.as_str(), snapshot_lv.as_str());
                        let mount_point = join_path(mount_root.as_str(), snapshot_lv.as_str());
                        return LvmProgress::Ready(
                            LvmSnapshot {
                                origin_volume: volume,
                                snapshot_lv,
                                vg_name,
                                snapshot_dev,
                                mount_point,
                                released: false,
                            },
                        );
                    },
                    Err(e) => LvmStage::Undo(e),
                },
                LvmReply::Made(_) => LvmStage::Mount,
            },
        };
        LvmProgress::More(
            LvmCreation {
                volume,
                vg_name,
                lv_name,
                snapshot_lv,
                cow_size,
                mount_root,
                stage: next_stage,
            },
        )
    }

    /// Whether the snapshot volume exists at this stage.
    pub open spec fn volume_exists(&self) -> bool {
        !(self.stage is Volume)
    }
}

// --- Snapshots -----------------------------------------------------------------------------

/// A mounted snapshot of a volume.
pub struct LvmSnapshot {
    pub origin_volume: String,
    pub snapshot_lv: String,
    pub vg_name: String,
    pub snapshot_dev: String,
    pub mount_point: String,
    pub released: bool,
}

/// What has to be done to take a snapshot down, in this order.
pub struct LvmTeardown {
    pub umount: ToolCall,
    pub lvremove: ToolCall,
    pub mount_point: String,
}

impl LvmSnapshot {
    /// Whether this is the snapshot that a creation was for.
    pub open spec fn is_for(&self, c: LvmCreation) -> bool {
        &&& self.origin_volume@ == c.volume@
        &&& self.snapshot_lv@ == c.snapshot_lv@
        &&& self.vg_name@ == c.vg_name@
        &&& self.snapshot_dev@ == c.device()
        &&& self.mount_point@ == c.mount_point()
    }

    /// Starts to take a snapshot of a volume under a given name, with the default options.
    pub fn create(linux: bool, volume: &str, snapshot_name: &str) -> (out: Result<
        LvmCreation,
        LazarusError,
    >)
        ensures
            out is Ok <==> linux && lv_of_path(volume@) is Ok && safe_lv_name(snapshot_name@),
            match out {
                Ok(c) => {
                    &&& c.stage is Volume
                    &&& c.volume@ == volume@
                    &&& lv_of_path(volume@) == Ok::<_, Seq<char>>((c.vg_name@, c.lv_name@))
                    &&& c.snapshot_lv@ == snapshot_name@
                    &&& c.cow_size@ == DEFAULT_COW_SIZE@
                    &&& c.mount_root@ == DEFAULT_MOUNT_ROOT@
                },
                Err(e) => e is Storage && e.detail() == creation_error(
                    linux,
                    volume@,
                    snapshot_name@,
                ),
            },
    {
        let mut opts = LvmSnapshotOpts::default();
        opts.snapshot_name = Some(copy_text(snapshot_name));
        LvmSnapshot::create_with_opts(linux, volume, &opts, 0)
    }

    /// Starts to take a snapshot of a volume. The time names it where the options do not.
    pub fn create_with_opts(linux: bool, volume: &str, opts: &LvmSnapshotOpts, now: u64) -> (out:
        Result<LvmCreation, LazarusError>)
        ensures
            out is Ok <==> linux && lv_of_path(volume@) is Ok && safe_lv_name(name_for(*opts, now)),
            match out {
                Ok(c) => {
                    &&& c.stage is Volume
                    &&& c.volume@ == volume@
                    &&& lv_of_path(volume@) == Ok::<_, Seq<char>>((c.vg_name@, c.lv_name@))
                    &&& c.snapshot_lv@ == name_for(*opts, now)
                    &&& c.cow_size@ == opts.cow_size@
                    &&& c.mount_root@ == opts.mount_root@
                },
                Err(e) => e is Storage && e.detail() == creation_error(
                    linux,
                    volume@,
                    name_for(*opts, now),
                ),
            },
    {
        if !linux {
            return Err(
                LazarusError::Storage(copy_text("LVM snapshots are only supported on Linux")),
            );
        }
        let (vg_name, lv_name) = match parse_lv_path(volume) {
            Ok(names) => names,
            Err(e) => {
                return Err(e);
            },
        };
        let snapshot_lv = match &opts.snapshot_name {
            Some(name) => copy_text(name.as_str()),
            None => default_snap_name(now),
        };
        if !is_safe_lv_name(snapshot_lv.as_str()) {
            return Err(
                LazarusError::Storage(concat2("invalid snapshot LV name: ", snapshot_lv.as_str())),
            );
        }
        Ok(
            LvmCreation {
                volume: copy_text(volume),
                vg_name,
                lv_name,
                snapshot_lv,
                cow_size: copy_text(opts.cow_size.as_str()),
                mount_root: copy_text(opts.mount_root.as_str()),
                stage: LvmStage::Volume,
            },
        )
    }

    /// The read-only mount of the snapshot.
    pub fn device_path(&self) -> (out: &str)
        ensures
            out@ == self.mount_point@,
    {
        self.mount_point.as_str()
    }

    /// The block device of the snapshot.
    pub fn block_device(&self) -> (out: &str)
        ensures
            out@ == self.snapshot_dev@,
    {
        self.snapshot_dev.as_str()
    }

    /// The volume that the snapshot was taken of.
    pub fn origin(&self) -> (out: &str)
        ensures
            out@ == self.origin_volume@,
    {
        self.origin_volume.as_str()
    }

    /// Starts to take the snapshot down. A second call has nothing left to do.
    pub fn release(&mut self) -> (out: Option<LvmTeardown>)
        ensures
            final(self).released,
            final(self).origin_volume == old(self).origin_volume,
            final(self).snapshot_lv == old(self).snapshot_lv,
            final(self).vg_name == old(self).vg_name,
            final(self).snapshot_dev == old(self).snapshot_dev,
            final(self).mount_point == old(self).mount_point,
            out is None <==> old(self).released,
            out matches Some(t) ==> {
                &&& t.umount@ == seq!["umount"@, old(self).mount_point@]
                &&& t.lvremove@ == lvremove_words(old(self).vg_name@, old(self).snapshot_lv@)
                &&& t.mount_point@ == old(self).mount_point@
            },
    {
        if self.released {
            return None;
        }
        self.released = true;
        Some(
            LvmTeardown {
                umount: ToolCall::new("umount").arg(self.mount_point.as_str()),
                lvremove: lvremove(self.vg_name.as_str(), self.snapshot_lv.as_str()),
                mount_point: copy_text(self.mount_point.as_str()),
            },
        )
    }
}

/// How taking a snapshot down ended. A failing `umount` does not matter, as long as it could be
/// started.
pub fn teardown_result(umount: ToolResult, lvremove: ToolResult) -> (out: Result<(), LazarusError>)
    ensures
        out is Ok <==> umount is Done && lvremove.succeeded(),
        out matches Err(e) ==> e is Storage && e.detail() == match umount {
            ToolResult::NotRunnable(m) => "umount not runnable during teardown: "@ + m@,
            ToolResult::Done { .. } => lvremove.failure("lvremove"@, "lvremove"@),
        },
{
    match umount {
        ToolResult::NotRunnable(m) => Err(
            LazarusError::Storage(concat2("umount not runnable during teardown: ", m.as_str())),
        ),
        ToolResult::Done { .. } => match lvremove.output("lvremove", "lvremove") {
            Ok(_) => Ok(()),
            Err(e) => Err(e),
        },
    }
}

/// The name of a snapshot: the one that was asked for, or one made from the time.
pub open spec fn name_for(opts: LvmSnapshotOpts, now: u64) -> Seq<char> {
    match opts.snapshot_name {
        Some(name) => name@,
        None => snap_name_at(now),
    }
}

/// Why a snapshot cannot be taken.
pub open spec fn creation_error(linux: bool, volume: Seq<char>, name: Seq<char>) -> Seq<char> {
    if !linux {
        "LVM snapshots are only supported on Linux"@
    } else {
        match lv_of_path(volume) {
            Err(m) => m,
            Ok(_) => "invalid snapshot LV name: "@ + name,
        }
    }
}

impl ConsistentMount for LvmSnapshot {
    open spec fn place(&self) -> Seq<char> {
        self.mount_point@
    }

    fn path(&self) -> (out: &str) {
        self.mount_point.as_str()
    }
}

/// Takes snapshots with LVM.
pub struct LvmSnapshotter;

impl BlockSnapshotter for LvmSnapshotter {
    open spec fn handles(path: Seq<char>, host: HostProbe) -> bool {
        host.linux && looks_like_volume(path)
    }

    fn supports(path: &str, host: &HostProbe) -> (out: bool) {
        host.linux && path_is_lvm_volume(path)
    }
}

impl LvmSnapshotter {
    /// Starts to take a snapshot of a source at a time.
    pub fn snapshot(&self, linux: bool, source: &str, now: u64) -> (out: Result<
        LvmCreation,
        LazarusError,
    >)
        ensures
            out is Ok <==> linux && lv_of_path(source@) is Ok && safe_lv_name(snap_name_at(now)),
            match out {
                Ok(c) => {
                    &&& c.stage is Volume
                    &&& c.volume@ == source@
                    &&& lv_of_path(source@) == Ok::<_, Seq<char>>((c.vg_name@, c.lv_name@))
                    &&& c.snapshot_lv@ == snap_name_at(now)
                    &&& c.cow_size@ == DEFAULT_COW_SIZE@
                    &&& c.mount_root@ == DEFAULT_MOUNT_ROOT@
                },
                Err(e) => e is Storage && e.detail() == creation_error(
                    linux,
                    source@,
                    snap_name_at(now),
                ),
            },
    {
        LvmSnapshot::create(linux, source, default_snap_name(now).as_str())
    }
}

/// The device path of a logical volume names its group and the volume.
pub proof fn device_paths_name_volumes(vg: Seq<char>, lv: Seq<char>)
    requires
        vg.len() > 0,
        lv.len() > 0,
        lacks_char(vg, '/'),
        lacks_char(lv, '/'),
        vg != "mapper"@,
    ensures
        lv_of_path("/dev/"@ + vg + "/"@ + lv) == Ok::<_, Seq<char>>((vg, lv)),
        looks_like_volume("/dev/"@ + vg + "/"@ + lv),
{
    reveal_strlit("/dev/");
    reveal_strlit("/dev/mapper/");
    reveal_strlit("mapper");
    reveal_strlit("/");
    let path = "/dev/"@ + vg + "/"@ + lv;
    assert("/"@ =~= seq!['/']);
    let rest = vg + seq!['/'] + lv;
    assert(path.take(5) =~= "/dev/"@);
    assert(path.skip(5) =~= rest);
    first_fields(vg, '/', lv);
    lone_fields(lv, '/');
    assert(split_on(rest, '/') =~= seq![vg, lv]);
    if after_prefix(path, "/dev/mapper/"@) is Some {
        assert(path.take(12) == "/dev/mapper/"@);
        assert forall|i: int| 0 <= i < 7 && i < rest.len() implies rest[i] == "/dev/mapper/"@[5 + i] by {
            assert(path.take(12)[5 + i] == path[5 + i]);
        }
        assert(rest.len() >= 7);
        assert(rest[6] == '/');
        if vg.len() > 6 {
            assert(rest[6] == vg[6]);
        } else if vg.len() < 6 {
            assert(rest[vg.len() as int] == '/');
        } else {
            assert(vg =~= "mapper"@) by {
                assert forall|i: int| 0 <= i < 6 implies vg[i] == "mapper"@[i] by {
                    assert(vg[i] == rest[i]);
                }
            }
        }
    }
    assert forall|i: int| 0 <= i < lv.len() implies #[trigger] lv[i] != '/' by {}
}

/// The mapped path of a logical volume names its group and the volume, where neither name has a
/// hyphen.
pub proof fn mapped_paths_name_volumes(vg: Seq<char>, lv: Seq<char>)
    requires
        lacks_char(vg, '-'),
        lacks_char(lv, '-'),
    ensures
        lv_of_path("/dev/mapper/"@ + vg + "-"@ + lv) == Ok::<_, Seq<char>>((vg, lv)),
{
    reveal_strlit("/dev/mapper/");
    reveal_strlit("-");
    reveal_strlit("--");
    let path = "/dev/mapper/"@ + vg + "-"@ + lv;
    assert("-"@ =~= seq!['-']);
    let rest = vg + seq!['-'] + lv;
    assert(path.take(12) =~= "/dev/mapper/"@);
    assert(path.skip(12) =~= rest);
    first_fields(vg, '-', lv);
    if has_part(rest, "--"@) {
        let i = choose|i: int| occurs_at(rest, "--"@, i);
        let part = rest.subrange(i, i + 2);
        assert(part[0] == '-' && part[1] == '-');
        assert(rest[i] == '-' && rest[i + 1] == '-');
        if i < vg.len() {
            assert(rest[i] == vg[i]);
        } else {
            assert(rest[i + 1] == lv[i - vg.len()]);
        }
    }
}

/// A mapped name with two hyphens in a row is refused: it does not tell where the group ends.
pub proof fn doubled_hyphens_are_refused(s: Seq<char>)
    requires
        has_prefix(s, "/dev/mapper/"@),
        has_part(s.skip("/dev/mapper/"@.len() as int), "--"@),
    ensures
        lv_of_path(s) is Err,
{
}

/// What does not lie below the device directory is no volume.
pub proof fn other_paths_are_no_volumes(s: Seq<char>)
    requires
        !has_prefix(s, "/dev/"@),
    ensures
        lv_of_path(s) is Err,
        !looks_like_volume(s),
{
    reveal_strlit("/dev/");
    reveal_strlit("/dev/mapper/");
    if has_prefix(s, "/dev/mapper/"@) {
        assert(s.take(5) =~= s.take(12).take(5));
        assert("/dev/mapper/"@.take(5) =~= "/dev/"@);
    }
}

/// The name of a snapshot volume has 1 to 128 characters: letters, digits, underscores, hyphens
/// and dots.
pub proof fn safe_names(name: Seq<char>)
    ensures
        safe_lv_name(name) <==> 1 <= name.len() <= 128 && forall|i: int|
            0 <= i < name.len() ==> {
                let n = #[trigger] name[i] as int;
                (97 <= n <= 122) || (65 <= n <= 90) || (48 <= n <= 57) || n == 95 || n == 45 || n
                    == 46
            },
{
    assert forall|i: int| 0 <= i < name.len() implies safe_name_char(#[trigger] name[i]) <==> ({
        let n = name[i] as int;
        (97 <= n <= 122) || (65 <= n <= 90) || (48 <= n <= 57) || n == 95 || n == 45 || n == 46
    }) by {}
}

/// The volume that is removed is the snapshot, never the volume that it was taken of: it is named
/// by the group and the name of the snapshot.
pub proof fn only_snapshots_are_removed(vg: Seq<char>, lv: Seq<char>, c: LvmCreation)
    ensures
        lvremove_words(vg, lv) == seq!["lvremove"@, "-f"@, vg + "/"@ + lv],
        c.device() == "/dev/"@ + c.vg_name@ + "/"@ + c.snapshot_lv@,
        c.mount_point() == joined_path(c.mount_root@, c.snapshot_lv@),
{
}

/// A snapshot has the name that was asked for, or one made from the time.
pub proof fn asked_names_are_taken(opts: LvmSnapshotOpts, now: u64)
    ensures
        opts.snapshot_name matches Some(name) ==> name_for(opts, now) == name@,
        opts.snapshot_name is None ==> name_for(opts, now) == "lazarus_snap_"@ + decimal(
            now as nat,
        ),
{
}

/// LVM takes snapshots on Linux only, of paths that look like volumes.
pub proof fn lvm_needs_a_volume(path: Seq<char>, host: HostProbe)
    ensures
        LvmSnapshotter::handles(path, host) <==> host.linux && looks_like_volume(path),
        LvmSnapshotter::handles(path, host) ==> has_prefix(path, "/dev/"@),
{
    if !has_prefix(path, "/dev/"@) {
        other_paths_are_no_volumes(path);
    }
}

/// A snapshot belongs to the creation that it came of, and a creation keeps its target from stage
/// to stage.
pub proof fn targets_stay(snap: LvmSnapshot, c: LvmCreation, next: LvmCreation)
    requires
        snap.is_for(c),
        next.same_target(c),
    ensures
        snap.origin_volume@ == c.volume@,
        snap.snapshot_lv@ == c.snapshot_lv@,
        snap.vg_name@ == c.vg_name@,
        snap.snapshot_dev@ == "/dev/"@ + c.vg_name@ + "/"@ + c.snapshot_lv@,
        snap.mount_point@ == joined_path(c.mount_root@, c.snapshot_lv@),
        next.volume@ == c.volume@,
        next.vg_name@ == c.vg_name@,
        next.lv_name@ == c.lv_name@,
        next.snapshot_lv@ == c.snapshot_lv@,
        next.cow_size@ == c.cow_size@,
        next.mount_root@ == c.mount_root@,
{
}

/// The snapshot volume exists behind the stage that creates it, and only then has a failure
/// something to undo.
pub proof fn volumes_exist_once_created(c: LvmCreation)
    ensures
        c.volume_exists() <==> !(c.stage is Volume),
        DEFAULT_COW_SIZE@ == "5G"@,
        DEFAULT_MOUNT_ROOT@ == "/var/lib/lazarus/mounts"@,
{
}

/// Why no snapshot can be taken: the system is not Linux, the path is no volume, or the name is
/// not safe.
pub proof fn creations_are_refused(linux: bool, volume: Seq<char>, name: Seq<char>)
    ensures
        !linux ==> creation_error(linux, volume, name)
            == "LVM snapshots are only supported on Linux"@,
        linux && lv_of_path(volume) is Err ==> creation_error(linux, volume, name) == lv_of_path(
            volume,
        )->Err_0,
        linux && lv_of_path(volume) is Ok ==> creation_error(linux, volume, name)
            == "invalid snapshot LV name: "@ + name,
{
}

/// A volume lies right below its group: a deeper path, and one that lacks either name, is none.
pub proof fn volumes_lie_below_their_groups(vg: Seq<char>, lv: Seq<char>)
    requires
        lacks_char(vg, '/'),
        !has_prefix("/dev/"@ + vg + "/"@ + lv, "/dev/mapper/"@),
    ensures
        lv_of_path("/dev/"@ + vg + "/"@ + lv) is Ok <==> vg.len() > 0 && lv.len() > 0 && lacks_char(
            lv,
            '/',
        ),
{
    reveal_strlit("/dev/");
    reveal_strlit("/");
    let path = "/dev/"@ + vg + "/"@ + lv;
    assert("/"@ =~= seq!['/']);
    assert(path.take(5) =~= "/dev/"@);
    assert(path.skip(5) =~= vg + seq!['/'] + lv);
    first_fields(vg, '/', lv);
    assert(lv.contains('/') <==> !lacks_char(lv, '/'));
}

} // verus!
