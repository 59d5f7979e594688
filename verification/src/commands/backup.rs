//! Taking backups: what is captured how, in which order, and what is written down of it.
use crate::bytes::hash_from_hex;
use crate::bytes::hash_of_hex;
use crate::bytes::same_hash;
use crate::catalog::index::extent_chunk_key;
use crate::catalog::index::extent_key;
use crate::catalog::index::file_chunk_key;
use crate::catalog::index::CatalogIndex;
use crate::catalog::index::CatalogState;
use crate::catalog::index::ChunkFact;
use crate::catalog::index::ExtentChunkFact;
use crate::catalog::index::ExtentFact;
use crate::catalog::index::FileChunkFact;
use crate::catalog::index::ObjectFact;
use crate::catalog::index::ObjectMetadata;
use crate::catalog::index::ObjectType;
use crate::catalog::rows::has_key;
use crate::chunking::block_device::Extent;
use crate::error::LazarusError;
use crate::snapshot::block_image::Piece;
use crate::snapshot::btrfs::BtrfsSnapshotter;
use crate::snapshot::hooks::builtins::all;
use crate::snapshot::hooks::builtins::docker;
use crate::snapshot::hooks::builtins::is_all;
use crate::snapshot::hooks::builtins::is_docker;
use crate::snapshot::hooks::builtins::is_mongodb;
use crate::snapshot::hooks::builtins::is_mysql;
use crate::snapshot::hooks::builtins::is_postgres;
use crate::snapshot::hooks::builtins::is_redis;
use crate::snapshot::hooks::builtins::mongodb;
use crate::snapshot::hooks::builtins::mysql;
use crate::snapshot::hooks::builtins::postgres;
use crate::snapshot::hooks::builtins::redis;
use crate::snapshot::hooks::ApplicationHook;
use crate::snapshot::hooks::HookRunner;
use crate::snapshot::lvm::LvmSnapshotter;
use crate::snapshot::snapshotter::BlockSnapshotter;
use crate::snapshot::snapshotter::HostProbe;
use crate::snapshot::zfs::ZfsSnapshotter;
use crate::storage::chunks::chunk_key;
use crate::storage::chunks::chunk_location;
use crate::storage::chunks::has_shard;
use crate::storage::chunks::SealedChunk;
use crate::text::concat3;
use crate::text::copy_text;
use crate::text::push_text;
use crate::text::same_text;
use crate::text::texts;
use crate::text::to_chars;
use vstd::prelude::*;

verus! {

// --- Arguments -----------------------------------------------------------------------------

/// Which mechanism takes the snapshot of a consistent backup.
#[derive(Debug, Clone, Copy, PartialEq, Eq, Structural)]
pub enum SnapshotterChoice {
    /// The first one that supports the source.
    Auto,
    Lvm,
    Btrfs,
    Zfs,
    /// None at all; only the hooks are run.
    NoSnapshot,
}

impl Default for SnapshotterChoice {
    fn default() -> (out: Self)
        ensures
            out == SnapshotterChoice::Auto,
    {
        SnapshotterChoice::Auto
    }
}

/// What the user asked to back up.
pub struct BackupArgs {
    pub source: Option<String>,
    pub repository: String,
    pub password: String,
    /// Go on although the source looks suspicious.
    pub force: bool,
    pub consistent: bool,
    pub snapshotter: SnapshotterChoice,
    pub block_mode: bool,
    pub device: Option<String>,
    pub no_hooks: bool,
    /// The ready-made hooks to run; all of them, where none is named.
    pub hook_templates: Vec<String>,
}

impl Default for BackupArgs {
    fn default() -> (out: Self)
        ensures
            out.source is None,
            out.repository@ == Seq::<char>::empty(),
            out.password@ == Seq::<char>::empty(),
            !out.force,
            !out.consistent,
            out.snapshotter == SnapshotterChoice::Auto,
            !out.block_mode,
            out.device is None,
            !out.no_hooks,
            out.hook_templates@.len() == 0,
    {
        BackupArgs {
            source: None,
            repository: String::new(),
            password: String::new(),
            force: false,
            consistent: false,
            snapshotter: SnapshotterChoice::Auto,
            block_mode: false,
            device: None,
            no_hooks: false,
            hook_templates: Vec::new(),
        }
    }
}

/// What is captured.
#[derive(Debug, Clone, Copy, PartialEq, Eq, Structural)]
pub enum CaptureMode {
    File,
    Block,
}

/// The arguments of a backup, once they have been checked.
#[derive(Debug)]
pub struct CaptureConfig {
    /// The path to read from.
    pub target: String,
    /// What the user asked for.
    pub declared_source: String,
    pub mode: CaptureMode,
    pub consistent: bool,
    pub snapshotter: SnapshotterChoice,
    pub run_hooks: bool,
    pub hook_templates: Vec<String>,
}

/// Why the arguments do not go together, where they do not.
pub open spec fn args_fault(args: BackupArgs) -> Option<Seq<char>> {
    if args.block_mode {
        if args.device is None {
            Some("--block-mode requires --device to be specified"@)
        } else if args.source is Some {
            Some(
                "--block-mode cannot be combined with --source; pass the device via --device only"@,
            )
        } else {
            None
        }
    } else if args.device is Some {
        Some("--device may only be used with --block-mode"@)
    } else if args.source is None {
        Some("--source is required for file backups"@)
    } else {
        None
    }
}

/// The path that the arguments name.
pub open spec fn named_path(args: BackupArgs) -> Seq<char> {
    if args.block_mode {
        args.device->0@
    } else {
        args.source->0@
    }
}

fn copy_texts(list: &Vec<String>) -> (out: Vec<String>)
    ensures
        texts(out@) == texts(list@),
{
    let mut out: Vec<String> = Vec::new();
    let mut i: usize = 0;
    assert(texts(out@) =~= texts(list@).take(0));
    while i < list.len()
        invariant
            i <= list@.len(),
            texts(out@) == texts(list@).take(i as int),
        decreases list@.len() - i,
    {
        push_text(&mut out, list[i].as_str());
        assert(texts(out@) =~= texts(list@).take(i as int + 1));
        i += 1;
    }
    assert(texts(list@).take(i as int) =~= texts(list@));
    out
}

fn storage_error(message: &str) -> (e: LazarusError)
    ensures
        e is Storage,
        e.detail() == message@,
{
    LazarusError::Storage(copy_text(message))
}

/// Checks that the arguments of a backup go together.
pub fn validate_args(args: &BackupArgs) -> (out: Result<CaptureConfig, LazarusError>)
    ensures
        out is Ok <==> args_fault(*args) is None,
        match out {
            Ok(cfg) => {
                &&& cfg.target@ == named_path(*args)
                &&& cfg.declared_source@ == named_path(*args)
                &&& cfg.mode == if args.block_mode {
                    CaptureMode::Block
                } else {
                    CaptureMode::File
                }
                &&& cfg.consistent == args.consistent
                &&& cfg.snapshotter == args.snapshotter
                &&& cfg.run_hooks == !args.no_hooks
                &&& texts(cfg.hook_templates@) == texts(args.hook_templates@)
            },
            Err(e) => e is Storage && args_fault(*args) == Some(e.detail()),
        },
{
    let path: &String;
    let mode: CaptureMode;
    if args.block_mode {
        match &args.device {
            None => {
                return Err(storage_error("--block-mode requires --device to be specified"));
            },
            Some(device) => {
                if args.source.is_some() {
                    return Err(
                        storage_error(
                            "--block-mode cannot be combined with --source; pass the device via --device only",
                        ),
                    );
                }
                path = device;
                mode = CaptureMode::Block;
            },
        }
    } else {
        if args.device.is_some() {
            return Err(storage_error("--device may only be used with --block-mode"));
        }
        match &args.source {
            None => {
                return Err(storage_error("--source is required for file backups"));
            },
            Some(source) => {
                path = source;
                mode = CaptureMode::File;
            },
        }
    }
    Ok(
        CaptureConfig {
            target: copy_text(path.as_str()),
            declared_source: copy_text(path.as_str()),
            mode,
            consistent: args.consistent,
            snapshotter: args.snapshotter,
            run_hooks: !args.no_hooks,
            hook_templates: copy_texts(&args.hook_templates),
        },
    )
}

// --- Snapshot mechanisms -------------------------------------------------------------------

/// A mechanism that takes snapshots.
#[derive(Debug, Clone, Copy, PartialEq, Eq, Structural)]
pub enum SnapshotterKind {
    Lvm,
    Btrfs,
    Zfs,
}

impl SnapshotterKind {
    /// The name that the metadata of a snapshot records.
    pub fn label(self) -> (out: &'static str)
        ensures
            out@ == match self {
                SnapshotterKind::Lvm => "lvm"@,
                SnapshotterKind::Btrfs => "btrfs"@,
                SnapshotterKind::Zfs => "zfs"@,
            },
    {
        match self {
            SnapshotterKind::Lvm => "lvm",
            SnapshotterKind::Btrfs => "btrfs",
            SnapshotterKind::Zfs => "zfs",
        }
    }
}

/// The first mechanism that supports a source.
pub open spec fn first_supporting(source: Seq<char>, host: HostProbe) -> Option<SnapshotterKind> {
    if LvmSnapshotter::handles(source, host) {
        Some(SnapshotterKind::Lvm)
    } else if BtrfsSnapshotter::handles(source, host) {
        Some(SnapshotterKind::Btrfs)
    } else if ZfsSnapshotter::handles(source, host) {
        Some(SnapshotterKind::Zfs)
    } else {
        None
    }
}

/// The mechanism that a choice stands for; none, where no snapshot is wanted.
pub fn pick_snapshotter(choice: SnapshotterChoice, source: &str, host: &HostProbe) -> (out: Result<
    Option<SnapshotterKind>,
    LazarusError,
>)
    ensures
        out is Err <==> choice == SnapshotterChoice::Auto && first_supporting(
            source@,
            *host,
        ) is None,
        match out {
            Ok(kind) => kind == match choice {
                SnapshotterChoice::NoSnapshot => None::<SnapshotterKind>,
                SnapshotterChoice::Lvm => Some(SnapshotterKind::Lvm),
                SnapshotterChoice::Btrfs => Some(SnapshotterKind::Btrfs),
                SnapshotterChoice::Zfs => Some(SnapshotterKind::Zfs),
                SnapshotterChoice::Auto => first_supporting(source@, *host),
            },
            Err(e) => e is Storage && e.detail() == "no snapshotter supports "@ + source@
                + "; pass --snapshotter none to bypass"@,
        },
{
    match choice {
        SnapshotterChoice::NoSnapshot => Ok(None),
        SnapshotterChoice::Lvm => Ok(Some(SnapshotterKind::Lvm)),
        SnapshotterChoice::Btrfs => Ok(Some(SnapshotterKind::Btrfs)),
        SnapshotterChoice::Zfs => Ok(Some(SnapshotterKind::Zfs)),
        SnapshotterChoice::Auto => {
            if LvmSnapshotter::supports(source, host) {
                Ok(Some(SnapshotterKind::Lvm))
            } else if BtrfsSnapshotter::supports(source, host) {
                Ok(Some(SnapshotterKind::Btrfs))
            } else if ZfsSnapshotter::supports(source, host) {
                Ok(Some(SnapshotterKind::Zfs))
            } else {
                Err(
                    LazarusError::Storage(
                        concat3(
                            "no snapshotter supports ",
                            source,
                            "; pass --snapshotter none to bypass",
                        ),
                    ),
                )
            }
        },
    }
}

/// The name of a choice.
pub fn snapshotter_label(choice: SnapshotterChoice) -> (out: &'static str)
    ensures
        out@ == match choice {
            SnapshotterChoice::Auto => "auto"@,
            SnapshotterChoice::Lvm => "lvm"@,
            SnapshotterChoice::Btrfs => "btrfs"@,
            SnapshotterChoice::Zfs => "zfs"@,
            SnapshotterChoice::NoSnapshot => "none"@,
        },
{
    match choice {
        SnapshotterChoice::Auto => "auto",
        SnapshotterChoice::Lvm => "lvm",
        SnapshotterChoice::Btrfs => "btrfs",
        SnapshotterChoice::Zfs => "zfs",
        SnapshotterChoice::NoSnapshot => "none",
    }
}

/// The name of a mode.
pub fn mode_label(mode: CaptureMode) -> (out: &'static str)
    ensures
        out@ == match mode {
            CaptureMode::File => "file"@,
            CaptureMode::Block => "block"@,
        },
{
    match mode {
        CaptureMode::File => "file",
        CaptureMode::Block => "block",
    }
}

/// Whether a block device can be captured with the chosen mechanism: a consistent capture takes
/// no snapshot of its own.
pub fn check_block_snapshotter(cfg: &CaptureConfig) -> (out: Result<(), LazarusError>)
    ensures
        out is Ok <==> !cfg.consistent || cfg.snapshotter == SnapshotterChoice::NoSnapshot
            || cfg.snapshotter == SnapshotterChoice::Auto,
        out matches Err(e) ==> e is Storage && e.detail()
            == "--block-mode --consistent only supports --snapshotter=none or auto (hooks-only); pass the snapshot block device via --device for OS-level snapshots"@,
{
    if cfg.consistent {
        match cfg.snapshotter {
            SnapshotterChoice::NoSnapshot | SnapshotterChoice::Auto => Ok(()),
            SnapshotterChoice::Lvm | SnapshotterChoice::Btrfs | SnapshotterChoice::Zfs => Err(
                storage_error(
                    "--block-mode --consistent only supports --snapshotter=none or auto (hooks-only); pass the snapshot block device via --device for OS-level snapshots",
                ),
            ),
        }
    } else {
        Ok(())
    }
}

// --- Hooks ---------------------------------------------------------------------------------

/// Whether a template has this name.
pub open spec fn known_template(name: Seq<char>) -> bool {
    ||| name == "postgres"@
    ||| name == "mysql"@
    ||| name == "mongodb"@
    ||| name == "redis"@
    ||| name == "docker"@
    ||| name == "all"@
}

/// Whether a list holds the hooks of a template.
pub open spec fn is_template(list: Seq<ApplicationHook>, name: Seq<char>) -> bool {
    if name == "postgres"@ {
        list.len() == 1 && is_postgres(list[0])
    } else if name == "mysql"@ {
        list.len() == 1 && is_mysql(list[0])
    } else if name == "mongodb"@ {
        list.len() == 1 && is_mongodb(list[0])
    } else if name == "redis"@ {
        list.len() == 1 && is_redis(list[0])
    } else if name == "docker"@ {
        list.len() == 1 && is_docker(list[0])
    } else {
        name == "all"@ && is_all(list)
    }
}

/// How many hooks a template has.
pub open spec fn template_size(name: Seq<char>) -> int {
    if name == "all"@ {
        5
    } else {
        1
    }
}

/// Whether a list holds the hooks of several templates, one behind the other.
pub open spec fn are_templates(list: Seq<ApplicationHook>, names: Seq<Seq<char>>) -> bool
    decreases names.len(),
{
    if names.len() == 0 {
        list.len() == 0
    } else {
        let n = template_size(names.last());
        &&& list.len() >= n
        &&& are_templates(list.take(list.len() - n), names.drop_last())
        &&& is_template(list.skip(list.len() - n), names.last())
    }
}

/// The position of the first name that no template has, or the length of the list.
pub open spec fn first_unknown(names: Seq<Seq<char>>, i: int) -> int
    decreases names.len() - i,
{
    if i < 0 || i >= names.len() || !known_template(names[i]) {
        i
    } else {
        first_unknown(names, i + 1)
    }
}

fn template(name: &str) -> (out: Option<Vec<ApplicationHook>>)
    ensures
        out is Some <==> known_template(name@),
        out matches Some(list) ==> is_template(list@, name@) && list@.len() == template_size(name@),
{
    proof {
        reveal_strlit("postgres");
        reveal_strlit("mysql");
        reveal_strlit("mongodb");
        reveal_strlit("redis");
        reveal_strlit("docker");
        reveal_strlit("all");
        assert("all"@.len() == 3);
        assert("postgres"@.len() == 8 && "mysql"@.len() == 5 && "mongodb"@.len() == 7);
        assert("redis"@.len() == 5 && "docker"@.len() == 6);
    }
    let mut list: Vec<ApplicationHook> = Vec::new();
    if same_text(name, "postgres") {
        list.push(postgres());
    } else if same_text(name, "mysql") {
        list.push(mysql());
    } else if same_text(name, "mongodb") {
        list.push(mongodb());
    } else if same_text(name, "redis") {
        list.push(redis());
    } else if same_text(name, "docker") {
        list.push(docker());
    } else if same_text(name, "all") {
        return Some(all());
    } else {
        return None;
    }
    Some(list)
}

/// A runner for the named templates, or for all of them where none is named.
pub fn build_hook_runner(templates: &Vec<String>) -> (out: Result<HookRunner, LazarusError>)
    ensures
        out is Ok <==> first_unknown(texts(templates@), 0) == templates@.len(),
        match out {
            Ok(runner) => if templates@.len() == 0 {
                is_all(runner.list())
            } else {
                are_templates(runner.list(), texts(templates@))
            },
            Err(e) => e is Storage && e.detail() == "unknown hook template `"@ + texts(
                templates@,
            )[first_unknown(texts(templates@), 0)]
                + "`; expected one of postgres, mysql, mongodb, redis, docker, all"@,
        },
{
    if templates.len() == 0 {
        return Ok(HookRunner::with_hooks(all()));
    }
    let ghost names = texts(templates@);
    let mut hooks: Vec<ApplicationHook> = Vec::new();
    let mut i: usize = 0;
    assert(names.take(0) =~= Seq::<Seq<char>>::empty());
    while i < templates.len()
        invariant
            i <= templates@.len(),
            names == texts(templates@),
            first_unknown(names, 0) == first_unknown(names, i as int),
            are_templates(hooks@, names.take(i as int)),
        decreases templates@.len() - i,
    {
        let name = templates[i].as_str();
        match template(name) {
            None => {
                return Err(
                    LazarusError::Storage(
                        concat3(
                            "unknown hook template `",
                            name,
                            "`; expected one of postgres, mysql, mongodb, redis, docker, all",
                        ),
                    ),
                );
            },
            Some(list) => {
                let mut list = list;
                let ghost before = hooks@;
                let ghost more = list@;
                hooks.append(&mut list);
                proof {
                    let seen = names.take(i as int + 1);
                    assert(seen.drop_last() =~= names.take(i as int));
                    assert(seen.last() == name@);
                    assert(hooks@.take(before.len() as int) =~= before);
                    assert(hooks@.skip(before.len() as int) =~= more);
                }
            },
        }
        i += 1;
    }
    assert(names.take(i as int) =~= names);
    Ok(HookRunner::with_hooks(hooks))
}

// --- The order of a run --------------------------------------------------------------------

/// A phase of a run.
#[derive(Debug, Clone, Copy, PartialEq, Eq, Structural)]
pub enum Phase {
    /// The hooks freeze the applications.
    PreHooks,
    /// The snapshot is taken.
    TakeSnapshot,
    /// The hooks thaw the applications.
    PostHooks,
    /// The source, or its snapshot, is read.
    Capture,
    /// The snapshot is taken down.
    ReleaseSnapshot,
    /// There is nothing left to do.
    Finished,
}

/// How far a run has come.
#[derive(Debug, Clone, Copy, PartialEq, Eq, Structural)]
pub struct BackupRun {
    /// Whether hooks are run.
    pub hooks: bool,
    /// Whether a snapshot is taken.
    pub snapshot: bool,
    pub phase: Phase,
    /// Whether a phase failed so that nothing is captured any more.
    pub failed: bool,
}

/// The first phase of a run.
pub open spec fn first_run(hooks: bool, snapshot: bool) -> BackupRun {
    BackupRun {
        hooks,
        snapshot,
        phase: if hooks {
            Phase::PreHooks
        } else if snapshot {
            Phase::TakeSnapshot
        } else {
            Phase::Capture
        },
        failed: false,
    }
}

/// What follows a phase that succeeded or failed. The applications are thawed as soon as the
/// snapshot has been taken; without a snapshot they stay frozen until the capture is over.
pub open spec fn run_after(run: BackupRun, ok: bool) -> BackupRun {
    let next = match run.phase {
        Phase::PreHooks => if !ok {
            Phase::Finished
        } else if run.snapshot {
            Phase::TakeSnapshot
        } else {
            Phase::Capture
        },
        Phase::TakeSnapshot => if run.hooks {
            Phase::PostHooks
        } else if ok {
            Phase::Capture
        } else {
            Phase::Finished
        },
        Phase::PostHooks => if run.snapshot && !run.failed {
            Phase::Capture
        } else {
            Phase::Finished
        },
        Phase::Capture => if run.snapshot {
            Phase::ReleaseSnapshot
        } else if run.hooks {
            Phase::PostHooks
        } else {
            Phase::Finished
        },
        Phase::ReleaseSnapshot => Phase::Finished,
        Phase::Finished => Phase::Finished,
    };
    BackupRun {
        phase: next,
        failed: run.failed || (!ok && (run.phase == Phase::PreHooks || run.phase
            == Phase::TakeSnapshot || run.phase == Phase::Capture)),
        ..run
    }
}

impl BackupRun {
    /// The run of a backup: hooks and snapshots belong to consistent backups only, and a block
    /// device is captured without a snapshot.
    pub fn new(cfg: &CaptureConfig) -> (out: Self)
        ensures
            out == first_run(
                cfg.consistent && cfg.run_hooks,
                cfg.consistent && cfg.mode == CaptureMode::File && cfg.snapshotter
                    != SnapshotterChoice::NoSnapshot,
            ),
    {
        let hooks = cfg.consistent && cfg.run_hooks;
        let snapshot = cfg.consistent && cfg.mode == CaptureMode::File && cfg.snapshotter
            != SnapshotterChoice::NoSnapshot;
        let phase = if hooks {
            Phase::PreHooks
        } else if snapshot {
            Phase::TakeSnapshot
        } else {
            Phase::Capture
        };
        BackupRun { hooks, snapshot, phase, failed: false }
    }

    /// Goes on after a phase.
    pub fn advance(&mut self, ok: bool)
        ensures
            *final(self) == run_after(*old(self), ok),
    {
        let next = match self.phase {
            Phase::PreHooks => if !ok {
                Phase::Finished
            } else if self.snapshot {
                Phase::TakeSnapshot
            } else {
                Phase::Capture
            },
            Phase::TakeSnapshot => if self.hooks {
                Phase::PostHooks
            } else if ok {
                Phase::Capture
            } else {
                Phase::Finished
            },
            Phase::PostHooks => if self.snapshot && !self.failed {
                Phase::Capture
            } else {
                Phase::Finished
            },
            Phase::Capture => if self.snapshot {
                Phase::ReleaseSnapshot
            } else if self.hooks {
                Phase::PostHooks
            } else {
                Phase::Finished
            },
            Phase::ReleaseSnapshot => Phase::Finished,
            Phase::Finished => Phase::Finished,
        };
        if !ok && (self.phase == Phase::PreHooks || self.phase == Phase::TakeSnapshot || self.phase
            == Phase::Capture) {
            self.failed = true;
        }
        self.phase = next;
    }
}

/// The phases of a run from a state on, given which of them succeed.
pub open spec fn phases_from(run: BackupRun, ok: spec_fn(Phase) -> bool, limit: nat) -> Seq<Phase>
    decreases limit,
{
    if limit == 0 || run.phase == Phase::Finished {
        Seq::empty()
    } else {
        seq![run.phase] + phases_from(run_after(run, ok(run.phase)), ok, (limit - 1) as nat)
    }
}

/// The phases of a run.
pub open spec fn phases(hooks: bool, snapshot: bool, ok: spec_fn(Phase) -> bool) -> Seq<Phase> {
    phases_from(first_run(hooks, snapshot), ok, 6)
}

/// With a snapshot, the hooks run only around the taking of it, and the capture follows; without
/// one, they run around the whole capture. A failing hook before the snapshot ends the run at
/// once. In every other case what was frozen is thawed and what was taken is released.
pub proof fn runs_are_ordered(hooks: bool, snapshot: bool, ok: spec_fn(Phase) -> bool)
    ensures
        phases(hooks, snapshot, ok) == if hooks && !ok(Phase::PreHooks) {
            seq![Phase::PreHooks]
        } else if hooks && snapshot {
            if ok(Phase::TakeSnapshot) {
                seq![
                    Phase::PreHooks,
                    Phase::TakeSnapshot,
                    Phase::PostHooks,
                    Phase::Capture,
                    Phase::ReleaseSnapshot,
                ]
            } else {
                seq![Phase::PreHooks, Phase::TakeSnapshot, Phase::PostHooks]
            }
        } else if hooks {
            seq![Phase::PreHooks, Phase::Capture, Phase::PostHooks]
        } else if snapshot {
            if ok(Phase::TakeSnapshot) {
                seq![Phase::TakeSnapshot, Phase::Capture, Phase::ReleaseSnapshot]
            } else {
                seq![Phase::TakeSnapshot]
            }
        } else {
            seq![Phase::Capture]
        },
{
    reveal_with_fuel(phases_from, 7);
    if hooks && !ok(Phase::PreHooks) {
        assert(phases(hooks, snapshot, ok) =~= seq![Phase::PreHooks]);
    } else if hooks && snapshot {
        if ok(Phase::TakeSnapshot) {
            assert(phases(hooks, snapshot, ok) =~= seq![
                Phase::PreHooks,
                Phase::TakeSnapshot,
                Phase::PostHooks,
                Phase::Capture,
                Phase::ReleaseSnapshot,
            ]);
        } else {
            assert(phases(hooks, snapshot, ok) =~= seq![
                Phase::PreHooks,
                Phase::TakeSnapshot,
                Phase::PostHooks,
            ]);
        }
    } else if hooks {
        assert(phases(hooks, snapshot, ok) =~= seq![
            Phase::PreHooks,
            Phase::Capture,
            Phase::PostHooks,
        ]);
    } else if snapshot {
        if ok(Phase::TakeSnapshot) {
            assert(phases(hooks, snapshot, ok) =~= seq![
                Phase::TakeSnapshot,
                Phase::Capture,
                Phase::ReleaseSnapshot,
            ]);
        } else {
            assert(phases(hooks, snapshot, ok) =~= seq![Phase::TakeSnapshot]);
        }
    } else {
        assert(phases(hooks, snapshot, ok) =~= seq![Phase::Capture]);
    }
}

// --- What is written down ------------------------------------------------------------------

/// Whether the source is a file, or else a directory.
pub fn source_is_file(is_file: bool, is_dir: bool) -> (out: Result<bool, LazarusError>)
    ensures
        out is Ok <==> is_file || is_dir,
        match out {
            Ok(yes) => yes == is_file,
            Err(e) => e is Storage && e.detail() == "Source is neither a file nor a directory"@,
        },
{
    if is_file {
        Ok(true)
    } else if is_dir {
        Ok(false)
    } else {
        Err(storage_error("Source is neither a file nor a directory"))
    }
}

/// The owner, the group and the mode of a file: those of the system, or defaults where it has
/// none.
pub fn capture_platform_metadata(unix: Option<(u32, u32, u32)>, is_dir: bool) -> (out: (
    u32,
    u32,
    u32,
))
    ensures
        out == match unix {
            Some(ids) => ids,
            None => (
                0u32,
                0u32,
                if is_dir {
                    493u32
                } else {
                    420u32
                },
            ),
        },
{
    match unix {
        Some(ids) => ids,
        None => (
            0,
            0,
            if is_dir {
                493
            } else {
                420
            },
        ),
    }
}

/// What is written down of a file or directory. A directory has no size.
pub fn build_object_metadata(
    name: &str,
    is_dir: bool,
    len: u64,
    mtime: u64,
    ids: (u32, u32, u32),
) -> (out: ObjectMetadata)
    ensures
        out.name@ == name@,
        out.size == if is_dir {
            0
        } else {
            len
        },
        out.mtime == mtime,
        (out.uid, out.gid, out.mode) == ids,
{
    let (uid, gid, mode) = ids;
    ObjectMetadata {
        name: copy_text(name),
        mode,
        size: if is_dir {
            0
        } else {
            len
        },
        mtime,
        uid,
        gid,
    }
}

/// What is written down of a block device.
pub fn device_metadata(file_name: Option<&str>, size: u64, now: u64) -> (out: ObjectMetadata)
    ensures
        out.name@ == match file_name {
            Some(name) => name@,
            None => "device"@,
        },
        out.mode == 384,
        out.size == size,
        out.mtime == now,
        out.uid == 0,
        out.gid == 0,
{
    let name = match file_name {
        Some(n) => copy_text(n),
        None => copy_text("device"),
    };
    ObjectMetadata { name, mode: 384, size, mtime: now, uid: 0, gid: 0 }
}

/// The version of the layout that a block backup writes: it says where every chunk belongs.
pub const MANIFEST_VERSION: u64 = 2;

/// The rows of the extents of a block device, numbered from 0.
pub open spec fn extent_rows(object: i64, extents: Seq<Extent>) -> Seq<ExtentFact> {
    Seq::new(
        extents.len(),
        |i: int|
            ExtentFact {
                object,
                idx: i as u64,
                offset: extents[i].offset,
                length: extents[i].length,
            },
    )
}

/// The catalog with one more block device and its extents.
pub open spec fn with_device(
    state: CatalogState,
    id: i64,
    metadata: Seq<u8>,
    extents: Seq<Extent>,
) -> CatalogState {
    CatalogState {
        objects: state.objects.push(ObjectFact { id, kind: ObjectType::BlockDevice, metadata }),
        last_object_id: id,
        extents: state.extents + extent_rows(id, extents),
        ..state
    }
}

/// Writes down a block device with the extents that are allocated on it, before any chunk of it.
pub fn begin_block_object(
    catalog: &mut CatalogIndex,
    metadata: &[u8],
    extents: &Vec<Extent>,
) -> (out: Result<i64, LazarusError>)
    requires
        old(catalog).wf(),
    ensures
        final(catalog).wf(),
        out is Ok <==> old(catalog)@.last_object_id < i64::MAX,
        match out {
            Ok(id) => {
                &&& id == old(catalog)@.last_object_id + 1
                &&& !old(catalog)@.has_object(id)
                &&& final(catalog)@ == with_device(old(catalog)@, id, metadata@, extents@)
            },
            Err(e) => {
                &&& e is DatabaseError
                &&& e.detail() == "database or disk is full"@
                &&& final(catalog)@ == old(catalog)@
            },
        },
{
    let ghost before = catalog@;
    let id: i64 = match catalog.create_object(ObjectType::BlockDevice, metadata) {
        Ok(id) => id,
        Err(e) => {
            return Err(e);
        },
    };
    proof {
        assert(catalog@.objects[before.objects.len() as int].id == id);
        assert(before.extents + extent_rows(id, extents@.take(0)) =~= before.extents);
        assert forall|j: int| 0 <= j < before.extents.len() implies (
        #[trigger] before.extents[j]).object != id by {
            assert(before.has_object(before.extents[j].object));
        }
    }
    let mut i: usize = 0;
    while i < extents.len()
        invariant
            i <= extents@.len(),
            catalog.wf(),
            catalog@ == with_device(before, id, metadata@, extents@.take(i as int)),
            catalog@.has_object(id),
            forall|j: int| 0 <= j < before.extents.len() ==> (#[trigger] before.extents[j]).object != id,
        decreases extents@.len() - i,
    {
        let extent = &extents[i];
        let ghost rows = catalog@.extents;
        proof {
            let done = extent_rows(id, extents@.take(i as int));
            if has_key(rows, extent_key(), (id, i as u64)) {
                let j = choose|j: int|
                    0 <= j < rows.len() && extent_key()(#[trigger] rows[j]) == (id, i as u64);
                if j < before.extents.len() {
                    assert(rows[j] == before.extents[j]);
                } else {
                    assert(rows[j] == done[j - before.extents.len()]);
                }
                assert(false);
            }
            assert(before.extents + extent_rows(id, extents@.take(i as int + 1)) =~= rows.push(
                ExtentFact {
                    object: id,
                    idx: i as u64,
                    offset: extent.offset,
                    length: extent.length,
                },
            ));
        }
        match catalog.add_block_extent(id, i as u64, extent.offset, extent.length) {
            Ok(_) => {},
            Err(e) => {
                return Err(e);
            },
        }
        i += 1;
    }
    assert(extents@.take(i as int) =~= extents@);
    Ok(id)
}

/// The catalog once it knows a chunk.
pub open spec fn with_chunk(
    state: CatalogState,
    hash: Seq<char>,
    stored_len: nat,
    chunk_len: usize,
) -> CatalogState {
    if state.has_chunk(hash) {
        state
    } else {
        CatalogState {
            chunks: state.chunks.push(
                ChunkFact {
                    hash,
                    stored_size: stored_len as u64,
                    uncompressed_size: chunk_len as u64,
                },
            ),
            ..state
        }
    }
}

/// Where a chunk has to be stored; `None` where the repository has it already, so that equal
/// chunks are stored once.
pub fn missing_chunk_key(catalog: &CatalogIndex, chunk: &SealedChunk) -> (out: Option<String>)
    requires
        has_shard(chunk.hash_hex@),
    ensures
        out is None <==> catalog@.has_chunk(chunk.hash_hex@),
        out matches Some(key) ==> key@ == chunk_location(chunk.hash_hex@),
{
    if catalog.chunk_exists(chunk.hash_hex.as_str()) {
        None
    } else {
        Some(chunk_key(chunk.hash_hex.as_str()))
    }
}

/// Writes down a chunk of a file that is in storage by now.
pub fn record_file_chunk(
    catalog: &mut CatalogIndex,
    file_id: i64,
    order: usize,
    chunk: &SealedChunk,
) -> (out: Result<(), LazarusError>)
    requires
        old(catalog).wf(),
    ensures
        final(catalog).wf(),
        out is Ok <==> old(catalog)@.has_object(file_id) && !has_key(
            old(catalog)@.file_chunks,
            file_chunk_key(),
            (file_id, order as u64),
        ),
        ({
            let known = with_chunk(
                old(catalog)@,
                chunk.hash_hex@,
                chunk.stored_data@.len(),
                chunk.chunk_len,
            );
            match out {
                Ok(_) => final(catalog)@ == (CatalogState {
                    file_chunks: known.file_chunks.push(
                        FileChunkFact { file: file_id, hash: chunk.hash_hex@, order: order as u64 },
                    ),
                    ..known
                }),
                Err(e) => {
                    &&& final(catalog)@ == known
                    &&& e is DatabaseError
                    &&& e.detail() == if has_key(
                        old(catalog)@.file_chunks,
                        file_chunk_key(),
                        (file_id, order as u64),
                    ) {
                        "UNIQUE constraint failed: FileChunks.file_object_id, FileChunks.chunk_order"@
                    } else {
                        "FOREIGN KEY constraint failed"@
                    }
                },
            }
        }),
{
    let hash = chunk.hash_hex.as_str();
    let ghost before = catalog@;
    catalog.upsert_chunk(hash, chunk.stored_data.len(), chunk.chunk_len);
    proof {
        known_chunk(before, hash@, chunk.stored_data@.len(), chunk.chunk_len);
    }
    catalog.add_file_chunk(file_id, hash, order)
}

/// Writes down a chunk of an extent of a block device that is in storage by now.
pub fn record_block_chunk(
    catalog: &mut CatalogIndex,
    object_id: i64,
    extent_idx: u64,
    piece: &Piece,
    chunk: &SealedChunk,
) -> (out: Result<(), LazarusError>)
    requires
        old(catalog).wf(),
    ensures
        final(catalog).wf(),
        out is Ok <==> old(catalog)@.has_extent(object_id, extent_idx) && !has_key(
            old(catalog)@.extent_chunks,
            extent_chunk_key(),
            (object_id, extent_idx, piece.chunk_idx),
        ),
        ({
            let known = with_chunk(
                old(catalog)@,
                chunk.hash_hex@,
                chunk.stored_data@.len(),
                chunk.chunk_len,
            );
            match out {
                Ok(_) => final(catalog)@ == (CatalogState {
                    extent_chunks: known.extent_chunks.push(
                        ExtentChunkFact {
                            object: object_id,
                            extent_idx,
                            chunk_idx: piece.chunk_idx,
                            hash: chunk.hash_hex@,
                            rel_offset: piece.rel_offset,
                            length: piece.length,
                        },
                    ),
                    ..known
                }),
                Err(e) => {
                    &&& final(catalog)@ == known
                    &&& e is DatabaseError
                    &&& e.detail() == if has_key(
                        old(catalog)@.extent_chunks,
                        extent_chunk_key(),
                        (object_id, extent_idx, piece.chunk_idx),
                    ) {
                        "UNIQUE constraint failed: BlockExtentChunks.object_id, BlockExtentChunks.extent_idx, BlockExtentChunks.chunk_idx"@
                    } else {
                        "FOREIGN KEY constraint failed"@
                    }
                },
            }
        }),
{
    let hash = chunk.hash_hex.as_str();
    let ghost before = catalog@;
    catalog.upsert_chunk(hash, chunk.stored_data.len(), chunk.chunk_len);
    proof {
        known_chunk(before, hash@, chunk.stored_data@.len(), chunk.chunk_len);
    }
    catalog.add_block_extent_chunk(
        object_id,
        extent_idx,
        piece.chunk_idx,
        hash,
        piece.rel_offset,
        piece.length,
    )
}

proof fn known_chunk(state: CatalogState, hash: Seq<char>, stored_len: nat, chunk_len: usize)
    ensures
        with_chunk(state, hash, stored_len, chunk_len).has_chunk(hash),
{
    let known = with_chunk(state, hash, stored_len, chunk_len);
    if !state.has_chunk(hash) {
        assert(known.chunks[known.chunks.len() - 1].hash == hash);
    }
}

/// Whether a hash is in a list.
pub open spec fn holds_hash(list: Seq<[u8; 32]>, bytes: Seq<u8>) -> bool {
    exists|i: int| 0 <= i < list.len() && (#[trigger] list[i])@ == bytes
}

/// Adds the hash of a chunk to those that a snapshot uses, unless it is there or is no hash.
pub fn note_chunk(chunks: &mut Vec<[u8; 32]>, hash_hex: &str)
    ensures
        match hash_from_hex(hash_hex@) {
            None => final(chunks)@ == old(chunks)@,
            Some(bytes) => {
                &&& holds_hash(old(chunks)@, bytes) ==> final(chunks)@ == old(chunks)@
                &&& !holds_hash(old(chunks)@, bytes) ==> {
                    &&& final(chunks)@.drop_last() == old(chunks)@
                    &&& final(chunks)@.len() == old(chunks)@.len() + 1
                    &&& final(chunks)@.last()@ == bytes
                }
            },
        },
{
    let hash = match hash_of_hex(to_chars(hash_hex).as_slice()) {
        Some(h) => h,
        None => {
            return;
        },
    };
    let mut i: usize = 0;
    while i < chunks.len()
        invariant
            i <= chunks@.len(),
            chunks@ == old(chunks)@,
            hash_from_hex(hash_hex@) == Some(hash@),
            forall|k: int| 0 <= k < i ==> (#[trigger] chunks@[k])@ != hash@,
        decreases chunks@.len() - i,
    {
        if same_hash(&chunks[i], &hash) {
            assert(chunks@[i as int]@ == hash@);
            return;
        }
        i += 1;
    }
    chunks.push(hash);
    assert(chunks@.drop_last() =~= old(chunks)@);
    assert(chunks@[chunks@.len() - 1]@ == hash@);
}

/// A backup has one target: the device of a block backup, or the source of a file backup. Flags
/// that name none, or one of the other kind, are refused, each with its reason.
pub proof fn flags_name_one_target(args: BackupArgs)
    ensures
        args_fault(args) is None <==> if args.block_mode {
            args.device is Some && args.source is None
        } else {
            args.device is None && args.source is Some
        },
        args.block_mode && args.device is None ==> args_fault(args) == Some(
            "--block-mode requires --device to be specified"@,
        ),
        args.block_mode && args.device is Some && args.source is Some ==> args_fault(args) == Some(
            "--block-mode cannot be combined with --source; pass the device via --device only"@,
        ),
        !args.block_mode && args.device is Some ==> args_fault(args) == Some(
            "--device may only be used with --block-mode"@,
        ),
        !args.block_mode && args.device is None && args.source is None ==> args_fault(args) == Some(
            "--source is required for file backups"@,
        ),
        args_fault(args) is None && args.device is Some ==> named_path(args) == args.device->0@,
        args_fault(args) is None && args.source is Some ==> named_path(args) == args.source->0@,
{
}

/// LVM is asked before Btrfs, and Btrfs before ZFS; the first that can take a snapshot takes it.
pub proof fn snapshotters_are_asked_in_order(source: Seq<char>, host: HostProbe)
    ensures
        ({
            let lvm = LvmSnapshotter::handles(source, host);
            let btrfs = BtrfsSnapshotter::handles(source, host);
            let zfs = ZfsSnapshotter::handles(source, host);
            &&& first_supporting(source, host) == Some(SnapshotterKind::Lvm) <==> lvm
            &&& first_supporting(source, host) == Some(SnapshotterKind::Btrfs) <==> !lvm && btrfs
            &&& first_supporting(source, host) == Some(SnapshotterKind::Zfs) <==> !lvm && !btrfs
                && zfs
            &&& first_supporting(source, host) is None <==> !lvm && !btrfs && !zfs
        }),
{
}

/// Every template stands for hooks of its own name, in one fixed order where all are named.
pub proof fn templates_name_their_hooks(list: Seq<ApplicationHook>, name: Seq<char>)
    requires
        is_template(list, name),
    ensures
        name != "all"@ ==> list.len() == 1 && list[0].name@ == name,
        name == "all"@ ==> {
            &&& list.len() == 5
            &&& list[0].name@ == "postgres"@
            &&& list[1].name@ == "mysql"@
            &&& list[2].name@ == "mongodb"@
            &&& list[3].name@ == "redis"@
            &&& list[4].name@ == "docker"@
        },
        name == "postgres"@ || name == "mysql"@ || name == "mongodb"@ || name == "redis"@ || name
            == "docker"@ || name == "all"@,
{
    reveal_strlit("postgres");
    reveal_strlit("mysql");
    reveal_strlit("mongodb");
    reveal_strlit("redis");
    reveal_strlit("docker");
    reveal_strlit("all");
    assert("all"@.len() == 3);
    assert("postgres"@.len() == 8 && "mysql"@.len() == 5 && "mongodb"@.len() == 7);
    assert("redis"@.len() == 5 && "docker"@.len() == 6);
}

/// A name is known where it is the name of one of the five applications, or `all`.
pub proof fn known_templates()
    ensures
        known_template("postgres"@),
        known_template("mysql"@),
        known_template("mongodb"@),
        known_template("redis"@),
        known_template("docker"@),
        known_template("all"@),
        forall|name: Seq<char>| #[trigger]
            known_template(name) ==> [
                "postgres"@,
                "mysql"@,
                "mongodb"@,
                "redis"@,
                "docker"@,
                "all"@,
            ]@.contains(name),
{
    let known = ["postgres"@, "mysql"@, "mongodb"@, "redis"@, "docker"@, "all"@]@;
    assert forall|name: Seq<char>| #[trigger] known_template(name) implies known.contains(name) by {
        assert(known[0] == "postgres"@ && known[1] == "mysql"@ && known[2] == "mongodb"@);
        assert(known[3] == "redis"@ && known[4] == "docker"@ && known[5] == "all"@);
    }
}

/// The first name that is no template is the one that is refused; all before it are known.
pub proof fn the_first_unknown_name_is_refused(names: Seq<Seq<char>>, from: int)
    requires
        0 <= from <= names.len(),
    ensures
        from <= first_unknown(names, from) <= names.len(),
        first_unknown(names, from) < names.len() ==> !known_template(
            names[first_unknown(names, from)],
        ),
        forall|i: int|
            from <= i < first_unknown(names, from) ==> known_template(#[trigger] names[i]),
    decreases names.len() - from,
{
    if from < names.len() && known_template(names[from]) {
        the_first_unknown_name_is_refused(names, from + 1);
    }
}

/// The hooks of a runner come in the order of the names: what a further name adds stands behind
/// what was there.
pub proof fn templates_come_in_order(
    list: Seq<ApplicationHook>,
    more: Seq<ApplicationHook>,
    names: Seq<Seq<char>>,
    name: Seq<char>,
)
    requires
        are_templates(list, names),
        is_template(more, name),
    ensures
        are_templates(list + more, names.push(name)),
{
    templates_name_their_hooks(more, name);
    let all = list + more;
    assert(names.push(name).drop_last() =~= names);
    assert(all.take(list.len() as int) =~= list);
    assert(all.skip(list.len() as int) =~= more);
    assert(template_size(name) == more.len());
}

/// A chunk that goes into the catalog is there afterwards, with the sizes that it has; one that was
/// there stays as it was, and so does everything else.
pub proof fn chunks_enter_once(
    state: CatalogState,
    hash: Seq<char>,
    stored_len: nat,
    chunk_len: usize,
)
    requires
        stored_len <= u64::MAX,
        chunk_len <= u64::MAX,
    ensures
        ({
            let after = with_chunk(state, hash, stored_len, chunk_len);
            &&& state.has_chunk(hash) ==> after == state
            &&& !state.has_chunk(hash) ==> {
                &&& after.chunks.len() == state.chunks.len() + 1
                &&& after.chunks.last().hash == hash
                &&& after.chunks.last().stored_size == stored_len
                &&& after.chunks.last().uncompressed_size == chunk_len
                &&& after.chunks.drop_last() == state.chunks
            }
            &&& after.objects == state.objects
            &&& after.tree == state.tree
            &&& after.file_chunks == state.file_chunks
            &&& after.extents == state.extents
            &&& after.extent_chunks == state.extent_chunks
            &&& after.snapshots == state.snapshots
        }),
{
    let after = with_chunk(state, hash, stored_len, chunk_len);
    if !state.has_chunk(hash) {
        assert(after.chunks.drop_last() =~= state.chunks);
    }
}

/// A hook before the snapshot, a snapshot or a capture that fails makes the run a failed one for
/// good. What goes wrong while the applications are thawed or the snapshot is released does not.
pub proof fn failures_are_kept(run: BackupRun, ok: bool)
    ensures
        run.failed ==> run_after(run, ok).failed,
        ok ==> run_after(run, ok).failed == run.failed,
        !ok && run.phase == Phase::PreHooks ==> run_after(run, ok).failed,
        !ok && run.phase == Phase::TakeSnapshot ==> run_after(run, ok).failed,
        !ok && run.phase == Phase::Capture ==> run_after(run, ok).failed,
        run.phase == Phase::PostHooks ==> run_after(run, ok).failed == run.failed,
        run.phase == Phase::ReleaseSnapshot ==> run_after(run, ok).failed == run.failed,
        run_after(run, ok).hooks == run.hooks,
        run_after(run, ok).snapshot == run.snapshot,
        !first_run(run.hooks, run.snapshot).failed,
{
}

} // verus!
