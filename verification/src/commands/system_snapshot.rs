//! Taking the fingerprint of a system.
use crate::capture::system::CaptureOpts;
use crate::capture::system::SystemFingerprint;
use crate::catalog::metadata::SnapshotMetadata;
use crate::text::copy_text;
use crate::text::opt_text;
use crate::text::texts;
use vstd::prelude::*;

verus! {

/// What the user asked to capture of the system.
pub struct SystemSnapshotArgs {
    pub repository: String,
    pub password: String,
    pub tag: Option<String>,
    pub dry_run: bool,
    pub print: bool,
    /// How many seconds a tool may take.
    pub tool_timeout: u64,
    pub skip_packages: bool,
    pub skip_network: bool,
    pub skip_users: bool,
    pub skip_ssh: bool,
    pub skip_bootloader: bool,
    pub skip_lvm: bool,
    pub skip_mdadm: bool,
}

/// What is captured: all that is not to be skipped.
pub fn build_capture_opts(args: &SystemSnapshotArgs) -> (out: CaptureOpts)
    ensures
        out == (CaptureOpts {
            include_packages: !args.skip_packages,
            include_network: !args.skip_network,
            include_users: !args.skip_users,
            include_ssh_keys: !args.skip_ssh,
            include_bootloader: !args.skip_bootloader,
            include_lvm: !args.skip_lvm,
            include_mdadm: !args.skip_mdadm,
            tool_timeout: args.tool_timeout,
        }),
{
    CaptureOpts {
        include_packages: !args.skip_packages,
        include_network: !args.skip_network,
        include_users: !args.skip_users,
        include_ssh_keys: !args.skip_ssh,
        include_bootloader: !args.skip_bootloader,
        include_lvm: !args.skip_lvm,
        include_mdadm: !args.skip_mdadm,
        tool_timeout: args.tool_timeout,
    }
}

/// How many components a fingerprint holds: the kernel, the processor and the memory count as
/// one.
pub open spec fn components(fp: SystemFingerprint) -> int {
    1 + fp.disks@.len() + fp.filesystems@.len() + fp.services@.len() + (if fp.lvm is Some {
        1int
    } else {
        0
    }) + (if fp.mdadm is Some {
        1int
    } else {
        0
    })
}

/// How many components a fingerprint holds.
pub fn component_count(fp: &SystemFingerprint) -> (out: usize)
    requires
        components(*fp) <= usize::MAX,
    ensures
        out == components(*fp),
{
    let mut count: usize = 1;
    count = count + fp.disks.len();
    if fp.lvm.is_some() {
        count = count + 1;
    }
    if fp.mdadm.is_some() {
        count = count + 1;
    }
    count = count + fp.filesystems.len();
    count + fp.services.len()
}

/// What is written down beside the snapshot of a system.
pub fn fingerprint_sidecar(hostname: &str, chunk: &str, tag: Option<&str>) -> (out: SnapshotMetadata)
    ensures
        opt_text(out.hostname) == Some(hostname@),
        opt_text(out.source) == Some("system"@),
        opt_text(out.system_fingerprint_chunk) == Some(chunk@),
        out.system_fingerprint_format_version == Some(1u32),
        texts(out.tags@) == match tag {
            Some(t) => seq![t@],
            None => Seq::empty(),
        },
{
    let mut out = SnapshotMetadata::default();
    out.hostname = Some(copy_text(hostname));
    out.source = Some(copy_text("system"));
    out.system_fingerprint_chunk = Some(copy_text(chunk));
    out.system_fingerprint_format_version = Some(1);
    let mut tags: Vec<String> = Vec::new();
    if let Some(t) = tag {
        tags.push(copy_text(t));
    }
    assert(texts(tags@) =~= match tag {
        Some(t) => seq![t@],
        None => Seq::empty(),
    });
    out.tags = tags;
    out
}

/// A fingerprint has one part for the host, one for each disk, file system and service, and one
/// each for LVM and software RAID where they are there.
pub proof fn parts_are_counted(fp: SystemFingerprint)
    ensures
        fp.lvm is None && fp.mdadm is None ==> components(fp) == 1 + fp.disks@.len()
            + fp.filesystems@.len() + fp.services@.len(),
        fp.lvm is Some && fp.mdadm is None ==> components(fp) == 2 + fp.disks@.len()
            + fp.filesystems@.len() + fp.services@.len(),
        fp.lvm is None && fp.mdadm is Some ==> components(fp) == 2 + fp.disks@.len()
            + fp.filesystems@.len() + fp.services@.len(),
        fp.lvm is Some && fp.mdadm is Some ==> components(fp) == 3 + fp.disks@.len()
            + fp.filesystems@.len() + fp.services@.len(),
{
}

} // verus!
