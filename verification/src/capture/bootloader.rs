//! How a host boots.
use crate::capture::system::variable_set;
use crate::capture::system::CaptureWarning;
use crate::capture::system::NamedBlob;
use crate::capture::system::WarningFact;
use crate::catalog::rows::facts;
use crate::catalog::rows::facts_push;
use crate::paths::file_name;
use crate::paths::last_name;
use crate::text::after_prefix;
use crate::text::chars_are;
use crate::text::concat2;
use crate::text::concat3;
use crate::text::copy_text;
use crate::text::decimal;
use crate::text::decimal_string;
use crate::text::from_chars;
use crate::text::has_prefix;
use crate::text::is_digit;
use crate::text::last_part;
use crate::text::last_position;
use crate::text::lines;
use crate::text::lines_of;
use crate::text::opt_text;
use crate::text::starts_with;
use crate::text::strip_prefix;
use crate::text::sub_chars;
use crate::text::to_chars;
use crate::text::views;
use crate::text::words;
use crate::text::words_of;
use vstd::prelude::*;

verus! {

/// How a host boots.
#[derive(Debug, Clone, Copy, PartialEq, Eq, Structural)]
pub enum BootMode {
    Uefi,
    Bios,
    Unknown,
}

impl Default for BootMode {
    fn default() -> (out: Self)
        ensures
            out == BootMode::Unknown,
    {
        BootMode::Unknown
    }
}

/// The configuration of a host that boots with UEFI.
#[derive(Debug)]
pub struct UefiConfig {
    pub esp_device: String,
    pub esp_uuid: String,
    pub esp_size_bytes: u64,
    /// The hash of the stored archive of the boot partition.
    pub esp_archive_chunk: String,
    pub efibootmgr_dump: String,
    pub secure_boot_state: String,
    pub mok_certificates_present: bool,
}

/// The configuration of a host that boots with a BIOS.
#[derive(Debug)]
pub struct BiosConfig {
    /// The code at the start of the first sector.
    pub mbr_boot_code: Vec<u8>,
    pub grub_cfg: Option<String>,
    pub default_grub: Option<String>,
    pub grub_d_files: Vec<NamedBlob>,
}

/// A kernel or a file that belongs to one.
#[derive(Debug)]
pub struct KernelFileEntry {
    pub path: String,
    pub size: u64,
    /// The hash of the content.
    pub chunk: String,
}

/// How a host boots.
#[derive(Debug)]
pub struct BootloaderConfig {
    pub mode: BootMode,
    pub uefi: Option<UefiConfig>,
    pub bios: Option<BiosConfig>,
    pub kernel_files: Vec<KernelFileEntry>,
}

impl BootloaderConfig {
    /// Whether nothing is known of how the host boots.
    pub open spec fn is_blank(self) -> bool {
        &&& self.mode == BootMode::Unknown
        &&& self.uefi is None
        &&& self.bios is None
        &&& self.kernel_files@.len() == 0
    }
}

impl Default for BootloaderConfig {
    fn default() -> (out: Self)
        ensures
            out.is_blank(),
    {
        BootloaderConfig {
            mode: BootMode::Unknown,
            uefi: None,
            bios: None,
            kernel_files: Vec::new(),
        }
    }
}

/// How a host boots, from whether it shows UEFI firmware.
pub fn boot_mode(uefi_active: bool) -> (out: BootMode)
    ensures
        out == if uefi_active {
            BootMode::Uefi
        } else {
            BootMode::Bios
        },
{
    if uefi_active {
        BootMode::Uefi
    } else {
        BootMode::Bios
    }
}

/// How many bytes of the first sector are boot code.
pub const BOOT_CODE_LEN: usize = 446;

/// The largest file of the boot loader's configuration that is kept.
pub const GRUB_FILE_MAX: u64 = 1048576;

/// Whether a file belongs to a kernel.
pub open spec fn kernel_name(name: Seq<char>) -> bool {
    ||| has_prefix(name, "vmlinuz"@)
    ||| has_prefix(name, "initramfs"@)
    ||| has_prefix(name, "initrd"@)
    ||| has_prefix(name, "System.map"@)
}

/// Whether a file belongs to a kernel.
pub fn is_kernel_file(name: &str) -> (yes: bool)
    ensures
        yes == kernel_name(name@),
{
    let n = to_chars(name);
    let s = n.as_slice();
    starts_with(s, "vmlinuz") || starts_with(s, "initramfs") || starts_with(s, "initrd")
        || starts_with(s, "System.map")
}

/// The state of secure boot, from the first firmware variable that is listed and its content.
pub fn secure_boot_text(name: &str, content: Option<&[u8]>) -> (out: &'static str)
    ensures
        out@ == if has_prefix(name@, "SecureBoot-"@) && content is Some && content->0@.len() >= 5 {
            if content->0@[4] == 1 {
                "enabled"@
            } else {
                "disabled"@
            }
        } else {
            "unknown"@
        },
{
    if !starts_with(to_chars(name).as_slice(), "SecureBoot-") {
        return "unknown";
    }
    match content {
        Some(bytes) => {
            if bytes.len() < 5 {
                "unknown"
            } else if variable_set(bytes) {
                "enabled"
            } else {
                "disabled"
            }
        },
        None => "unknown",
    }
}

/// Whether a line of the mount table names the boot partition.
pub open spec fn esp_line(line: Seq<char>) -> bool {
    let w = words(line);
    w.len() >= 3 && (w[1] == "/boot/efi"@ || w[1] == "/efi"@)
}

/// The device of the boot partition that is mounted first; empty where there is none.
pub open spec fn esp_device(list: Seq<Seq<char>>, i: int) -> Seq<char>
    decreases list.len() - i,
{
    if i < 0 || i >= list.len() {
        Seq::empty()
    } else if esp_line(list[i]) {
        words(list[i])[0]
    } else {
        esp_device(list, i + 1)
    }
}

/// The device of the boot partition and its identifier, from the mount table. The table does not
/// know the identifier.
pub fn esp_from_mounts(mounts: &str) -> (out: (String, String))
    ensures
        out.0@ == esp_device(lines(mounts@), 0),
        out.1@ == Seq::<char>::empty(),
{
    let list = lines_of(to_chars(mounts).as_slice());
    let ghost all = lines(mounts@);
    let mut i: usize = 0;
    while i < list.len()
        invariant
            i <= list@.len(),
            views(list@) == all,
            all == lines(mounts@),
            esp_device(all, 0) == esp_device(all, i as int),
        decreases list@.len() - i,
    {
        assert(all[i as int] == list@[i as int]@);
        let w = words_of(list[i].as_slice());
        assert(views(w@).len() == w@.len());
        if w.len() >= 3 {
            assert(views(w@)[0] == w@[0]@);
            assert(views(w@)[1] == w@[1]@);
            if chars_are(w[1].as_slice(), "/boot/efi") || chars_are(w[1].as_slice(), "/efi") {
                return (from_chars(w[0].as_slice()), String::new());
            }
        }
        i += 1;
    }
    (String::new(), String::new())
}

/// The warnings about a host that boots with UEFI.
pub open spec fn uefi_warnings(
    archive: Result<u64, String>,
    stored: Option<Result<String, String>>,
    entries: Option<String>,
) -> Seq<WarningFact> {
    let a = match archive {
        Ok(_) => Seq::<WarningFact>::empty(),
        Err(e) => seq![
            (
                "bootloader"@,
                "could not tar /boot/efi: "@ + e@,
                Some("mount the ESP at /boot/efi and re-run as root"@),
            ),
        ],
    };
    let b = match stored {
        Some(Err(e)) => a.push(
            ("bootloader"@, "could not persist ESP archive: "@ + e@, None::<Seq<char>>),
        ),
        _ => a,
    };
    match entries {
        Some(_) => b,
        None => b.push(
            (
                "bootloader"@,
                "efibootmgr unavailable; UEFI boot entries not captured"@,
                None::<Seq<char>>,
            ),
        ),
    }
}

fn note(warnings: &mut Vec<CaptureWarning>, w: CaptureWarning)
    ensures
        facts(final(warnings)@) == facts(old(warnings)@).push(w@),
{
    proof {
        facts_push(warnings@, w);
    }
    warnings.push(w);
}

/// The configuration of a host that boots with UEFI, with the warnings about it. `archive` is the
/// length of the archive of the boot partition, and `stored` how storing it ended; an empty
/// archive is not stored.
pub fn read_uefi(
    archive: Result<u64, String>,
    stored: Option<Result<String, String>>,
    boot_entries: Option<String>,
    secure_boot_state: &str,
    mok_certificates_present: bool,
    mounts: Option<&str>,
) -> (out: (UefiConfig, Vec<CaptureWarning>))
    ensures
        out.0.esp_device@ == match mounts {
            Some(m) => esp_device(lines(m@), 0),
            None => Seq::empty(),
        },
        out.0.esp_uuid@ == Seq::<char>::empty(),
        out.0.esp_size_bytes == match archive {
            Ok(n) => n,
            Err(_) => 0,
        },
        out.0.esp_archive_chunk@ == (if stored is Some && stored->0 is Ok {
            stored->0->Ok_0@
        } else {
            Seq::empty()
        }),
        out.0.efibootmgr_dump@ == (if boot_entries is Some {
            boot_entries->0@
        } else {
            Seq::empty()
        }),
        out.0.secure_boot_state@ == secure_boot_state@,
        out.0.mok_certificates_present == mok_certificates_present,
        facts(out.1@) == uefi_warnings(archive, stored, boot_entries),
{
    let mut warnings: Vec<CaptureWarning> = Vec::new();
    assert(facts(warnings@) =~= Seq::<WarningFact>::empty());
    let esp_size_bytes: u64 = match &archive {
        Ok(n) => *n,
        Err(e) => {
            let m = concat2("could not tar /boot/efi: ", e.as_str());
            note(
                &mut warnings,
                CaptureWarning::new("bootloader", m.as_str()).with_remediation(
                    "mount the ESP at /boot/efi and re-run as root",
                ),
            );
            0
        },
    };
    let esp_archive_chunk = match &stored {
        Some(Ok(hash)) => copy_text(hash.as_str()),
        Some(Err(e)) => {
            let m = concat2("could not persist ESP archive: ", e.as_str());
            note(&mut warnings, CaptureWarning::new("bootloader", m.as_str()));
            String::new()
        },
        None => String::new(),
    };
    let efibootmgr_dump = match &boot_entries {
        Some(text) => copy_text(text.as_str()),
        None => {
            note(
                &mut warnings,
                CaptureWarning::new(
                    "bootloader",
                    "efibootmgr unavailable; UEFI boot entries not captured",
                ),
            );
            String::new()
        },
    };
    let (esp_device, esp_uuid) = match mounts {
        Some(m) => esp_from_mounts(m),
        None => (String::new(), String::new()),
    };
    assert(facts(warnings@) =~= uefi_warnings(archive, stored, boot_entries));
    (
        UefiConfig {
            esp_device,
            esp_uuid,
            esp_size_bytes,
            esp_archive_chunk,
            efibootmgr_dump,
            secure_boot_state: copy_text(secure_boot_state),
            mok_certificates_present,
        },
        warnings,
    )
}

/// The configuration of a host that boots with a BIOS, with the warning about it. Where the disk
/// is not known, nothing is captured. Boot code is captured whole or not at all: a read that
/// gives less counts as failed.
pub fn read_bios(
    disk: Option<String>,
    boot_code: Result<Vec<u8>, String>,
    grub_cfg: Option<String>,
    default_grub: Option<String>,
    grub_d_files: Vec<NamedBlob>,
) -> (out: (BiosConfig, Option<CaptureWarning>))
    ensures
        out.0.mbr_boot_code@.len() == BOOT_CODE_LEN || out.0.mbr_boot_code@.len() == 0,
        match disk {
            None => {
                &&& out.0.mbr_boot_code@.len() == 0
                &&& out.0.grub_cfg is None
                &&& out.0.default_grub is None
                &&& out.0.grub_d_files@.len() == 0
                &&& out.1 matches Some(w)
                &&& w@ == (
                    "bootloader"@,
                    "could not resolve root disk; MBR boot code not captured"@,
                    None::<Seq<char>>,
                )
            },
            Some(d) => {
                &&& out.0.grub_cfg == grub_cfg
                &&& out.0.default_grub == default_grub
                &&& out.0.grub_d_files == grub_d_files
                &&& match boot_code {
                    Ok(code) => if code@.len() >= BOOT_CODE_LEN {
                        &&& out.0.mbr_boot_code@ == code@.take(BOOT_CODE_LEN as int)
                        &&& out.1 is None
                    } else {
                        &&& out.0.mbr_boot_code@.len() == 0
                        &&& out.1 matches Some(w)
                        &&& w@ == (
                            "bootloader"@,
                            "could not read MBR boot code from "@ + d@ + ": only "@ + decimal(
                                code@.len(),
                            ) + " byte(s)"@,
                            None::<Seq<char>>,
                        )
                    },
                    Err(e) => {
                        &&& out.0.mbr_boot_code@.len() == 0
                        &&& out.1 matches Some(w)
                        &&& w@ == (
                            "bootloader"@,
                            "could not read MBR boot code from "@ + d@ + ": "@ + e@,
                            Some("re-run as root"@),
                        )
                    },
                }
            },
        },
{
    let d = match disk {
        Some(d) => d,
        None => {
            return (
                BiosConfig {
                    mbr_boot_code: Vec::new(),
                    grub_cfg: None,
                    default_grub: None,
                    grub_d_files: Vec::new(),
                },
                Some(
                    CaptureWarning::new(
                        "bootloader",
                        "could not resolve root disk; MBR boot code not captured",
                    ),
                ),
            );
        },
    };
    let (mbr_boot_code, warning) = match boot_code {
        Ok(code) => if code.len() >= BOOT_CODE_LEN {
            let mut whole = code;
            whole.truncate(BOOT_CODE_LEN);
            assert(whole@ =~= code@.take(BOOT_CODE_LEN as int));
            (whole, None)
        } else {
            let front = concat3("could not read MBR boot code from ", d.as_str(), ": only ");
            let number = decimal_string(code.len() as u64);
            let message = concat3(front.as_str(), number.as_str(), " byte(s)");
            (Vec::new(), Some(CaptureWarning::new("bootloader", message.as_str())))
        },
        Err(e) => {
            let front = concat3("could not read MBR boot code from ", d.as_str(), ": ");
            let w = CaptureWarning::new(
                "bootloader",
                concat2(front.as_str(), e.as_str()).as_str(),
            ).with_remediation("re-run as root");
            (Vec::new(), Some(w))
        },
    };
    (BiosConfig { mbr_boot_code, grub_cfg, default_grub, grub_d_files }, warning)
}

/// The entry for a kernel file, from reading and storing it, or the warning where one failed.
pub fn kernel_entry(path: &str, size: u64, stored: Result<String, String>) -> (out: Result<
    KernelFileEntry,
    CaptureWarning,
>)
    ensures
        out is Ok <==> stored is Ok,
        match out {
            Ok(entry) => {
                &&& entry.path@ == path@
                &&& entry.size == size
                &&& entry.chunk@ == stored->Ok_0@
            },
            Err(w) => w@ == (
                "bootloader"@,
                "could not persist "@ + path@ + ": "@ + stored->Err_0@,
                None::<Seq<char>>,
            ),
        },
{
    match stored {
        Ok(chunk) => Ok(KernelFileEntry { path: copy_text(path), size, chunk }),
        Err(e) => {
            let front = concat3("could not persist ", path, ": ");
            Err(CaptureWarning::new("bootloader", concat2(front.as_str(), e.as_str()).as_str()))
        },
    }
}

/// The warning where a kernel file cannot be read.
pub fn unread_kernel(path: &str, error: &str) -> (out: CaptureWarning)
    ensures
        out@ == ("bootloader"@, "could not read "@ + path@ + ": "@ + error@, None::<Seq<char>>),
{
    let front = concat3("could not read ", path, ": ");
    CaptureWarning::new("bootloader", concat2(front.as_str(), error).as_str())
}

/// The root device that the first of several words names.
pub open spec fn root_word(list: Seq<Seq<char>>, i: int) -> Option<Seq<char>>
    decreases list.len() - i,
{
    if i < 0 || i >= list.len() {
        None
    } else {
        match after_prefix(list[i], "root="@) {
            Some(device) => Some(device),
            None => root_word(list, i + 1),
        }
    }
}

/// The root device that the kernel was started with.
pub fn root_device(cmdline: &str) -> (out: Option<String>)
    ensures
        opt_text(out) == root_word(words(cmdline@), 0),
{
    let list = words_of(to_chars(cmdline).as_slice());
    let ghost all = words(cmdline@);
    let mut i: usize = 0;
    while i < list.len()
        invariant
            i <= list@.len(),
            views(list@) == all,
            all == words(cmdline@),
            root_word(all, 0) == root_word(all, i as int),
        decreases list@.len() - i,
    {
        assert(all[i as int] == list@[i as int]@);
        if let Some(device) = strip_prefix(list[i].as_slice(), "root=") {
            return Some(from_chars(device.as_slice()));
        }
        i += 1;
    }
    None
}

/// The link that leads to a device that is given by its identifier.
pub fn uuid_link(device: &str) -> (out: Option<String>)
    ensures
        opt_text(out) == match after_prefix(device@, "UUID="@) {
            Some(uuid) => Some("/dev/disk/by-uuid/"@ + uuid),
            None => None,
        },
{
    match strip_prefix(to_chars(device).as_slice(), "UUID=") {
        Some(uuid) => Some(
            concat2("/dev/disk/by-uuid/", from_chars(uuid.as_slice()).as_str()),
        ),
        None => None,
    }
}

/// A name without the digits that end it.
pub open spec fn without_digits(name: Seq<char>) -> Seq<char>
    decreases name.len(),
{
    if name.len() > 0 && is_digit(name.last()) {
        without_digits(name.drop_last())
    } else {
        name
    }
}

/// The disk of a partition: `nvme0n1p3` is on `nvme0n1` and `sda1` on `sda`.
pub open spec fn disk_of(path: Seq<char>) -> Seq<char> {
    match last_name(path) {
        None => path,
        Some(name) => {
            let p = last_part(name, "p"@, name.len() as int);
            if p is Some && (has_prefix(name, "nvme"@) || has_prefix(name, "mmcblk"@)) {
                "/dev/"@ + name.take(p->0)
            } else {
                "/dev/"@ + without_digits(name)
            }
        },
    }
}

fn strip_digits(name: &[char]) -> (out: Vec<char>)
    ensures
        out@ == without_digits(name@),
{
    let mut n: usize = name.len();
    assert(name@.take(n as int) =~= name@);
    while n > 0 && '0' <= name[n - 1] && name[n - 1] <= '9'
        invariant
            n <= name@.len(),
            without_digits(name@.take(n as int)) == without_digits(name@),
        decreases n,
    {
        assert(name@.take(n as int).drop_last() =~= name@.take(n - 1));
        n -= 1;
    }
    let out = sub_chars(name, 0, n);
    assert(out@ =~= name@.take(n as int));
    out
}

/// The disk of a partition.
pub fn disk_of_partition(p: &str) -> (out: String)
    ensures
        out@ == disk_of(p@),
{
    let name = match file_name(p) {
        Some(n) => to_chars(n.as_str()),
        None => {
            return copy_text(p);
        },
    };
    if let Some(k) = last_position(name.as_slice(), "p") {
        if starts_with(name.as_slice(), "nvme") || starts_with(name.as_slice(), "mmcblk") {
            let stem = sub_chars(name.as_slice(), 0, k);
            assert(stem@ =~= name@.take(k as int));
            return concat2("/dev/", from_chars(stem.as_slice()).as_str());
        }
    }
    let stem = strip_digits(name.as_slice());
    concat2("/dev/", from_chars(stem.as_slice()).as_str())
}

/// Each thing that is missing of a UEFI system is warned about once; where nothing is missing
/// there is no warning.
pub proof fn missing_uefi_parts_are_warned_about(
    archive: Result<u64, String>,
    stored: Option<Result<String, String>>,
    entries: Option<String>,
)
    ensures
        uefi_warnings(archive, stored, entries).len() == (if archive is Err {
            1nat
        } else {
            0nat
        }) + (if stored matches Some(Err(_)) {
            1nat
        } else {
            0nat
        }) + (if entries is None {
            1nat
        } else {
            0nat
        }),
        forall|i: int|
            0 <= i < uefi_warnings(archive, stored, entries).len() ==> (#[trigger] uefi_warnings(
                archive,
                stored,
                entries,
            )[i]).0 == "bootloader"@,
{
}

/// How much of a disk and of its files is taken.
pub proof fn boot_limits()
    ensures
        BOOT_CODE_LEN == 446,
        GRUB_FILE_MAX == 1024 * 1024,
{
}

/// A blank configuration says nothing of how a system boots.
pub proof fn blank_bootloaders_are_empty(part: BootloaderConfig)
    requires
        part.is_blank(),
    ensures
        part.mode == BootMode::Unknown,
        part.uefi is None,
        part.bios is None,
        part.kernel_files@.len() == 0,
{
}

} // verus!
