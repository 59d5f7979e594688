//! What a host is: kernel, processor, memory, file systems, services, firmware; and the fingerprint
//! that holds all that was captured.
use crate::capture::bootloader::BootloaderConfig;
use crate::capture::disk_layout::DiskLayout;
use crate::capture::network::str_view;
use crate::capture::network::text_in;
use crate::capture::network::NetworkConfig;
use crate::capture::packages::PackageManifest;
use crate::capture::secrets::SshHostKeysRef;
use crate::capture::users::UserDatabaseRef;
use crate::catalog::rows::facts;
use crate::catalog::rows::facts_push;
use crate::error::LazarusError;
use crate::snapshot::snapshotter::trim_text;
use crate::text::after_prefix;
use crate::text::copy_text;
use crate::text::from_chars;
use crate::text::has_prefix;
use crate::text::lines;
use crate::text::lines_of;
use crate::text::number_upto;
use crate::text::opt_text;
use crate::text::parse_number;
use crate::text::picked;
use crate::text::picked_step;
use crate::text::push_text;
use crate::text::same_text;
use crate::text::split;
use crate::text::split_on;
use crate::text::starts_with;
use crate::text::strip_prefix;
use crate::text::sub_chars;
use crate::text::texts;
use crate::text::to_chars;
use crate::text::trim;
use crate::text::trimmed;
use crate::text::views;
use crate::text::words;
use crate::text::words_of;
use vstd::prelude::*;

verus! {

/// The version of the fingerprint format.
pub const FINGERPRINT_VERSION: u32 = 1;

/// Something that could not be captured.
#[derive(Debug)]
pub struct CaptureWarning {
    pub component: String,
    pub message: String,
    pub remediation: Option<String>,
}

/// The component, the message and the advice of a warning.
pub type WarningFact = (Seq<char>, Seq<char>, Option<Seq<char>>);

impl View for CaptureWarning {
    type V = WarningFact;

    open spec fn view(&self) -> WarningFact {
        (self.component@, self.message@, opt_text(self.remediation))
    }
}

impl CaptureWarning {
    pub fn new(component: &str, message: &str) -> (out: Self)
        ensures
            out@ == (component@, message@, None::<Seq<char>>),
    {
        CaptureWarning {
            component: copy_text(component),
            message: copy_text(message),
            remediation: None,
        }
    }

    /// The same warning with advice.
    pub fn with_remediation(self, remediation: &str) -> (out: Self)
        ensures
            out@ == (self@.0, self@.1, Some(remediation@)),
    {
        CaptureWarning {
            component: self.component,
            message: self.message,
            remediation: Some(copy_text(remediation)),
        }
    }
}

/// A file that is kept with its content.
#[derive(Debug)]
pub struct NamedBlob {
    pub name: String,
    pub content: Vec<u8>,
}

/// The kernel and the distribution of a host.
#[derive(Debug)]
pub struct KernelInfo {
    pub release: String,
    pub version: String,
    pub arch: String,
    pub cmdline: String,
    pub distro_id: String,
    pub distro_version: String,
    pub init_system: String,
}

/// The processor of a host.
#[derive(Debug)]
pub struct CpuInfo {
    pub vendor: String,
    pub model: String,
    pub physical_cores: u32,
    pub logical_cores: u32,
    pub flags: Vec<String>,
}

impl Default for CpuInfo {
    fn default() -> (out: Self)
        ensures
            out.vendor@ == Seq::<char>::empty(),
            out.model@ == Seq::<char>::empty(),
            out.physical_cores == 0,
            out.logical_cores == 0,
            out.flags@.len() == 0,
    {
        CpuInfo {
            vendor: String::new(),
            model: String::new(),
            physical_cores: 0,
            logical_cores: 0,
            flags: Vec::new(),
        }
    }
}

/// A mounted file system.
#[verifier::ext_equal]
pub struct FilesystemFact {
    pub device: Seq<char>,
    pub mountpoint: Option<Seq<char>>,
    pub fstype: Seq<char>,
    pub uuid: Option<Seq<char>>,
    pub label: Option<Seq<char>>,
    pub options: Option<Seq<char>>,
}

/// A mounted file system.
#[derive(Debug)]
pub struct FilesystemInfo {
    pub device: String,
    pub mountpoint: Option<String>,
    pub fstype: String,
    pub uuid: Option<String>,
    pub label: Option<String>,
    pub options: Option<String>,
}

impl View for FilesystemInfo {
    type V = FilesystemFact;

    open spec fn view(&self) -> FilesystemFact {
        FilesystemFact {
            device: self.device@,
            mountpoint: opt_text(self.mountpoint),
            fstype: self.fstype@,
            uuid: opt_text(self.uuid),
            label: opt_text(self.label),
            options: opt_text(self.options),
        }
    }
}

/// The firmware of a host.
#[derive(Debug)]
pub struct FirmwareInfo {
    pub vendor: Option<String>,
    pub version: Option<String>,
    pub release_date: Option<String>,
    pub uefi: bool,
    pub secure_boot: bool,
}

/// A service that is started with the system.
#[derive(Debug)]
pub struct EnabledService {
    pub name: String,
    pub state: String,
}

impl View for EnabledService {
    type V = (Seq<char>, Seq<char>);

    open spec fn view(&self) -> (Seq<char>, Seq<char>) {
        (self.name@, self.state@)
    }
}

/// What is captured, and how many seconds a tool may take.
#[derive(Debug, Clone, Copy, PartialEq, Eq, Structural)]
pub struct CaptureOpts {
    pub include_lvm: bool,
    pub include_mdadm: bool,
    pub include_network: bool,
    pub include_packages: bool,
    pub include_users: bool,
    pub include_ssh_keys: bool,
    pub include_bootloader: bool,
    pub tool_timeout: u64,
}

impl Default for CaptureOpts {
    fn default() -> (out: Self)
        ensures
            out == (CaptureOpts {
                include_lvm: true,
                include_mdadm: true,
                include_network: true,
                include_packages: true,
                include_users: true,
                include_ssh_keys: true,
                include_bootloader: true,
                tool_timeout: 30,
            }),
    {
        CaptureOpts {
            include_lvm: true,
            include_mdadm: true,
            include_network: true,
            include_packages: true,
            include_users: true,
            include_ssh_keys: true,
            include_bootloader: true,
            tool_timeout: 30,
        }
    }
}

// --- The distribution ----------------------------------------------------------------------

pub open spec fn is_quote(c: char) -> bool {
    c == '"' || c == '\''
}

/// The text without the quotes in front.
pub open spec fn unquoted_front(s: Seq<char>) -> Seq<char>
    decreases s.len(),
{
    if s.len() > 0 && is_quote(s[0]) {
        unquoted_front(s.drop_first())
    } else {
        s
    }
}

/// The text without the quotes behind.
pub open spec fn unquoted_back(s: Seq<char>) -> Seq<char>
    decreases s.len(),
{
    if s.len() > 0 && is_quote(s.last()) {
        unquoted_back(s.drop_last())
    } else {
        s
    }
}

/// The text without the quotes around it.
pub open spec fn unquoted(s: Seq<char>) -> Seq<char> {
    unquoted_back(unquoted_front(s))
}

/// The text without the quotes around it.
pub fn strip_quotes(s: &[char]) -> (out: Vec<char>)
    ensures
        out@ == unquoted(s@),
{
    let mut i: usize = 0;
    assert(s@.skip(0) =~= s@);
    while i < s.len() && (s[i] == '"' || s[i] == '\'')
        invariant
            i <= s@.len(),
            unquoted_front(s@.skip(i as int)) == unquoted_front(s@),
        decreases s@.len() - i,
    {
        assert(s@.skip(i as int).drop_first() =~= s@.skip(i as int + 1));
        i += 1;
    }
    let front = sub_chars(s, i, s.len());
    assert(front@ =~= s@.skip(i as int));
    let mut n: usize = front.len();
    assert(front@.take(n as int) =~= front@);
    while n > 0 && (front[n - 1] == '"' || front[n - 1] == '\'')
        invariant
            n <= front@.len(),
            unquoted_back(front@.take(n as int)) == unquoted_back(front@),
        decreases n,
    {
        assert(front@.take(n as int).drop_last() =~= front@.take(n - 1));
        n -= 1;
    }
    let out = sub_chars(front.as_slice(), 0, n);
    assert(out@ =~= front@.take(n as int));
    out
}

/// The identifier and the version of a distribution after one more line.
pub open spec fn release_step(st: (Seq<char>, Seq<char>), line: Seq<char>) -> (
    Seq<char>,
    Seq<char>,
) {
    let t = trim(line);
    match after_prefix(t, "ID="@) {
        Some(rest) => (unquoted(rest), st.1),
        None => match after_prefix(t, "VERSION_ID="@) {
            Some(rest) => (st.0, unquoted(rest)),
            None => st,
        },
    }
}

/// The identifier and the version of a distribution.
pub open spec fn release_of(list: Seq<Seq<char>>) -> (Seq<char>, Seq<char>)
    decreases list.len(),
{
    if list.len() == 0 {
        (Seq::empty(), Seq::empty())
    } else {
        release_step(release_of(list.drop_last()), list.last())
    }
}

/// Reads the identifier and the version of a distribution.
pub fn parse_os_release(s: &str) -> (out: (String, String))
    ensures
        (out.0@, out.1@) == release_of(lines(s@)),
{
    let list = lines_of(to_chars(s).as_slice());
    let ghost all = lines(s@);
    let mut id: String = String::new();
    let mut version: String = String::new();
    let mut i: usize = 0;
    assert(all.take(0) =~= Seq::<Seq<char>>::empty());
    while i < list.len()
        invariant
            i <= list@.len(),
            views(list@) == all,
            release_of(all.take(i as int)) == (id@, version@),
        decreases list@.len() - i,
    {
        assert(all.take(i as int + 1).drop_last() =~= all.take(i as int));
        assert(all.take(i as int + 1).last() == list@[i as int]@);
        let t = trimmed(list[i].as_slice());
        if let Some(rest) = strip_prefix(t.as_slice(), "ID=") {
            id = from_chars(strip_quotes(rest.as_slice()).as_slice());
        } else if let Some(rest) = strip_prefix(t.as_slice(), "VERSION_ID=") {
            version = from_chars(strip_quotes(rest.as_slice()).as_slice());
        }
        i += 1;
    }
    assert(all.take(i as int) =~= all);
    (id, version)
}

/// What starts the system, from whether systemd runs and from the name of the first process.
pub open spec fn init_of(systemd: bool, comm: Option<Seq<char>>) -> Seq<char> {
    if systemd {
        "systemd"@
    } else {
        match comm {
            Some(t) => if trim(t) == "init"@ {
                "sysvinit"@
            } else {
                trim(t)
            },
            None => "unknown"@,
        }
    }
}

/// What starts the system.
pub fn detect_init_system(systemd: bool, comm: Option<&str>) -> (out: String)
    ensures
        out@ == init_of(systemd, str_view(comm)),
{
    if systemd {
        return copy_text("systemd");
    }
    match comm {
        Some(t) => {
            let name = trim_text(t);
            if same_text(name.as_str(), "init") {
                copy_text("sysvinit")
            } else {
                name
            }
        },
        None => copy_text("unknown"),
    }
}

/// What the system says of its kernel.
pub struct KernelFiles<'a> {
    pub osrelease: Option<&'a str>,
    pub version: Option<&'a str>,
    pub cmdline: Option<&'a str>,
    pub os_release: Option<&'a str>,
    pub init_comm: Option<&'a str>,
}

fn text_or_empty(text: Option<&str>) -> (out: String)
    ensures
        out@ == text_in(str_view(text)),
{
    match text {
        Some(t) => trim_text(t),
        None => String::new(),
    }
}

/// The kernel of a host, and the warning where its distribution is not known.
pub fn read_kernel(files: &KernelFiles, arch: &str, systemd: bool) -> (out: (
    KernelInfo,
    Option<CaptureWarning>,
))
    ensures
        out.0.release@ == text_in(str_view(files.osrelease)),
        out.0.version@ == text_in(str_view(files.version)),
        out.0.arch@ == arch@,
        out.0.cmdline@ == text_in(str_view(files.cmdline)),
        out.0.init_system@ == init_of(systemd, str_view(files.init_comm)),
        match files.os_release {
            Some(text) => {
                &&& (out.0.distro_id@, out.0.distro_version@) == release_of(lines(text@))
                &&& out.1 is None
            },
            None => {
                &&& out.0.distro_id@ == Seq::<char>::empty()
                &&& out.0.distro_version@ == Seq::<char>::empty()
                &&& out.1 matches Some(w)
                &&& w@ == (
                    "kernel"@,
                    "/etc/os-release missing"@,
                    Some("install systemd or a distro that provides os-release"@),
                )
            },
        },
{
    let mut warning: Option<CaptureWarning> = None;
    let (distro_id, distro_version) = match files.os_release {
        Some(text) => parse_os_release(text),
        None => {
            warning = Some(
                CaptureWarning::new("kernel", "/etc/os-release missing").with_remediation(
                    "install systemd or a distro that provides os-release",
                ),
            );
            (String::new(), String::new())
        },
    };
    (
        KernelInfo {
            release: text_or_empty(files.osrelease),
            version: text_or_empty(files.version),
            arch: copy_text(arch),
            cmdline: text_or_empty(files.cmdline),
            distro_id,
            distro_version,
            init_system: detect_init_system(systemd, files.init_comm),
        },
        warning,
    )
}

// --- Identity ------------------------------------------------------------------------------

/// A text without the white space around it, unless nothing is left.
pub open spec fn named(text: Option<Seq<char>>) -> Option<Seq<char>> {
    match text {
        Some(t) => if trim(t).len() > 0 {
            Some(trim(t))
        } else {
            None
        },
        None => None,
    }
}

/// A text without the white space around it, unless nothing is left.
pub fn nonempty(text: Option<&str>) -> (out: Option<String>)
    ensures
        opt_text(out) == named(str_view(text)),
{
    match text {
        Some(t) => {
            let name = trim_text(t);
            if to_chars(name.as_str()).len() > 0 {
                Some(name)
            } else {
                None
            }
        },
        None => None,
    }
}

/// The identifier of a machine, from the two files that may hold it.
pub fn machine_id(first: Option<&str>, second: Option<&str>) -> (out: Option<String>)
    ensures
        opt_text(out) == match named(str_view(first)) {
            Some(id) => Some(id),
            None => match second {
                Some(t) => Some(trim(t@)),
                None => None,
            },
        },
{
    match nonempty(first) {
        Some(id) => Some(id),
        None => match second {
            Some(t) => Some(trim_text(t)),
            None => None,
        },
    }
}

// --- The processor -------------------------------------------------------------------------

/// What stands between the first and the second colon, without the white space around it.
pub open spec fn field_of(s: Seq<char>) -> Seq<char> {
    let parts = split_on(s, ':');
    if parts.len() > 1 {
        trim(parts[1])
    } else {
        trim(Seq::empty())
    }
}

/// What stands between the first and the second colon.
pub fn field_value(s: &[char]) -> (out: Vec<char>)
    ensures
        out@ == field_of(s@),
{
    let parts = split(s, ':');
    assert(views(parts@).len() == parts@.len());
    if parts.len() > 1 {
        assert(views(parts@)[1] == parts@[1]@);
        trimmed(parts[1].as_slice())
    } else {
        let none: Vec<char> = Vec::new();
        assert(none@ =~= Seq::<char>::empty());
        trimmed(none.as_slice())
    }
}

/// What has been read of the processors.
#[verifier::ext_equal]
pub struct CpuState {
    pub vendor: Seq<char>,
    pub model: Seq<char>,
    pub flags: Seq<Seq<char>>,
    /// The different sockets.
    pub sockets: Seq<u32>,
    pub logical: nat,
}

/// What is known of the processors after one more line. The first vendor, model and flags count.
pub open spec fn cpu_step(st: CpuState, line: Seq<char>) -> CpuState {
    if after_prefix(line, "vendor_id"@) is Some {
        if st.vendor.len() == 0 {
            CpuState { vendor: field_of(after_prefix(line, "vendor_id"@)->0), ..st }
        } else {
            st
        }
    } else if after_prefix(line, "model name"@) is Some {
        if st.model.len() == 0 {
            CpuState { model: field_of(after_prefix(line, "model name"@)->0), ..st }
        } else {
            st
        }
    } else if after_prefix(line, "physical id"@) is Some {
        match number_upto(field_of(after_prefix(line, "physical id"@)->0), u32::MAX as nat) {
            Some(n) => if st.sockets.contains(n as u32) {
                st
            } else {
                CpuState { sockets: st.sockets.push(n as u32), ..st }
            },
            None => st,
        }
    } else if has_prefix(line, "processor"@) {
        CpuState { logical: st.logical + 1, ..st }
    } else if after_prefix(line, "flags"@) is Some {
        if st.flags.len() == 0 {
            CpuState { flags: words(field_of(after_prefix(line, "flags"@)->0)), ..st }
        } else {
            st
        }
    } else {
        st
    }
}

/// What is known of the processors.
pub open spec fn cpu_scan(list: Seq<Seq<char>>) -> CpuState
    decreases list.len(),
{
    if list.len() == 0 {
        CpuState {
            vendor: Seq::empty(),
            model: Seq::empty(),
            flags: Seq::empty(),
            sockets: Seq::empty(),
            logical: 0,
        }
    } else {
        cpu_step(cpu_scan(list.drop_last()), list.last())
    }
}

fn holds_number(list: &Vec<u32>, n: u32) -> (yes: bool)
    ensures
        yes == list@.contains(n),
{
    let mut i: usize = 0;
    while i < list.len()
        invariant
            i <= list@.len(),
            forall|k: int| 0 <= k < i ==> list@[k] != n,
        decreases list@.len() - i,
    {
        if list[i] == n {
            return true;
        }
        i += 1;
    }
    false
}

fn word_list(s: &[char]) -> (out: Vec<String>)
    ensures
        texts(out@) == words(s@),
{
    let parts = words_of(s);
    let ghost all = views(parts@);
    let mut out: Vec<String> = Vec::new();
    let mut i: usize = 0;
    assert(texts(out@) =~= all.take(0));
    while i < parts.len()
        invariant
            i <= parts@.len(),
            all == views(parts@),
            texts(out@) == all.take(i as int),
        decreases parts@.len() - i,
    {
        let word = from_chars(parts[i].as_slice());
        push_text(&mut out, word.as_str());
        assert(texts(out@) =~= all.take(i as int + 1));
        i += 1;
    }
    assert(all.take(i as int) =~= all);
    out
}

/// Reads what the system says of its processors. The physical cores are the different sockets, or
/// the logical cores where no socket is named.
pub fn parse_cpuinfo(s: &str) -> (out: CpuInfo)
    requires
        lines(s@).len() <= u32::MAX,
    ensures
        ({
            let st = cpu_scan(lines(s@));
            &&& out.vendor@ == st.vendor
            &&& out.model@ == st.model
            &&& texts(out.flags@) == st.flags
            &&& out.logical_cores == st.logical
            &&& out.physical_cores == if st.sockets.len() == 0 {
                st.logical
            } else {
                st.sockets.len()
            }
        }),
{
    let list = lines_of(to_chars(s).as_slice());
    let ghost all = lines(s@);
    let mut vendor: String = String::new();
    let mut model: String = String::new();
    let mut flags: Vec<String> = Vec::new();
    let mut sockets: Vec<u32> = Vec::new();
    let mut logical: u32 = 0;
    let mut i: usize = 0;
    assert(all.take(0) =~= Seq::<Seq<char>>::empty());
    assert(texts(flags@) =~= Seq::<Seq<char>>::empty());
    while i < list.len()
        invariant
            i <= list@.len(),
            views(list@) == all,
            all.len() <= u32::MAX,
            logical <= i,
            sockets@.len() <= i,
            texts(flags@).len() == flags@.len(),
            cpu_scan(all.take(i as int)) == (CpuState {
                vendor: vendor@,
                model: model@,
                flags: texts(flags@),
                sockets: sockets@,
                logical: logical as nat,
            }),
        decreases list@.len() - i,
    {
        assert(all.take(i as int + 1).drop_last() =~= all.take(i as int));
        assert(all.take(i as int + 1).last() == list@[i as int]@);
        let line = list[i].as_slice();
        if let Some(rest) = strip_prefix(line, "vendor_id") {
            if to_chars(vendor.as_str()).len() == 0 {
                vendor = from_chars(field_value(rest.as_slice()).as_slice());
            }
        } else if let Some(rest) = strip_prefix(line, "model name") {
            if to_chars(model.as_str()).len() == 0 {
                model = from_chars(field_value(rest.as_slice()).as_slice());
            }
        } else if let Some(rest) = strip_prefix(line, "physical id") {
            let field = field_value(rest.as_slice());
            if let Some(n) = parse_number(field.as_slice(), u32::MAX as u64) {
                let socket: u32 = n as u32;
                if !holds_number(&sockets, socket) {
                    sockets.push(socket);
                }
            }
        } else if starts_with(line, "processor") {
            logical = logical + 1;
        } else if let Some(rest) = strip_prefix(line, "flags") {
            if flags.len() == 0 {
                let field = field_value(rest.as_slice());
                flags = word_list(field.as_slice());
            }
        }
        i += 1;
    }
    assert(all.take(i as int) =~= all);
    let physical_cores: u32 = if sockets.len() == 0 {
        logical
    } else {
        sockets.len() as u32
    };
    CpuInfo { vendor, model, physical_cores, logical_cores: logical, flags }
}

/// The processor of a host, and the warning where nothing is known of it.
pub fn read_cpu(cpuinfo: Option<&str>) -> (out: (CpuInfo, Option<CaptureWarning>))
    requires
        cpuinfo matches Some(s) ==> lines(s@).len() <= u32::MAX,
    ensures
        match cpuinfo {
            Some(s) => {
                let st = cpu_scan(lines(s@));
                &&& out.1 is None
                &&& out.0.vendor@ == st.vendor
                &&& out.0.model@ == st.model
                &&& texts(out.0.flags@) == st.flags
                &&& out.0.logical_cores == st.logical
                &&& out.0.physical_cores == if st.sockets.len() == 0 {
                    st.logical
                } else {
                    st.sockets.len()
                }
            },
            None => {
                &&& out.0.vendor@ == Seq::<char>::empty()
                &&& out.0.model@ == Seq::<char>::empty()
                &&& out.0.flags@.len() == 0
                &&& out.0.logical_cores == 0
                &&& out.0.physical_cores == 0
                &&& out.1 matches Some(w)
                &&& w@ == ("cpu"@, "/proc/cpuinfo unreadable"@, None::<Seq<char>>)
            },
        },
{
    match cpuinfo {
        Some(s) => (parse_cpuinfo(s), None),
        None => (
            CpuInfo::default(),
            Some(CaptureWarning::new("cpu", "/proc/cpuinfo unreadable")),
        ),
    }
}

// --- Memory --------------------------------------------------------------------------------

/// The memory that a line names, in bytes.
pub open spec fn memory_line(rest: Seq<char>) -> u64 {
    let w = words(rest);
    let kib = if w.len() > 0 && number_upto(w[0], u64::MAX as nat) is Some {
        number_upto(w[0], u64::MAX as nat)->0
    } else {
        0
    };
    if kib * 1024 > u64::MAX {
        u64::MAX
    } else {
        (kib * 1024) as u64
    }
}

/// The memory that the first line about it names, in bytes.
pub open spec fn memory_of(list: Seq<Seq<char>>, i: int) -> u64
    decreases list.len() - i,
{
    if i < 0 || i >= list.len() {
        0
    } else {
        match after_prefix(list[i], "MemTotal:"@) {
            Some(rest) => memory_line(rest),
            None => memory_of(list, i + 1),
        }
    }
}

fn read_memory_line(rest: &[char]) -> (out: u64)
    ensures
        out == memory_line(rest@),
{
    let w = words_of(rest);
    assert(views(w@).len() == w@.len());
    let kib: u64 = if w.len() > 0 {
        assert(views(w@)[0] == w@[0]@);
        match parse_number(w[0].as_slice(), u64::MAX) {
            Some(n) => n,
            None => 0,
        }
    } else {
        0
    };
    match kib.checked_mul(1024) {
        Some(n) => n,
        None => u64::MAX,
    }
}

/// The memory of a host in bytes, and the warning where nothing is known of it.
pub fn read_memory(meminfo: Option<&str>) -> (out: (u64, Option<CaptureWarning>))
    ensures
        match meminfo {
            Some(s) => out.0 == memory_of(lines(s@), 0) && out.1 is None,
            None => {
                &&& out.0 == 0
                &&& out.1 matches Some(w)
                &&& w@ == ("memory"@, "/proc/meminfo unreadable"@, None::<Seq<char>>)
            },
        },
{
    let s = match meminfo {
        Some(s) => s,
        None => {
            return (0, Some(CaptureWarning::new("memory", "/proc/meminfo unreadable")));
        },
    };
    let list = lines_of(to_chars(s).as_slice());
    let ghost all = lines(s@);
    let mut i: usize = 0;
    while i < list.len()
        invariant
            i <= list@.len(),
            views(list@) == all,
            all == lines(s@),
            meminfo == Some(s),
            memory_of(all, 0) == memory_of(all, i as int),
        decreases list@.len() - i,
    {
        assert(all[i as int] == list@[i as int]@);
        if let Some(rest) = strip_prefix(list[i].as_slice(), "MemTotal:") {
            return (read_memory_line(rest.as_slice()), None);
        }
        i += 1;
    }
    (0, None)
}

// --- File systems and services -------------------------------------------------------------

/// The file system that a line of the mount table names.
pub open spec fn mount_line(line: Seq<char>) -> Option<FilesystemFact> {
    let w = words(line);
    if w.len() < 4 {
        None
    } else {
        Some(
            FilesystemFact {
                device: w[0],
                mountpoint: Some(w[1]),
                fstype: w[2],
                uuid: None,
                label: None,
                options: Some(w[3]),
            },
        )
    }
}

pub open spec fn mount_rule() -> spec_fn(Seq<char>) -> Option<FilesystemFact> {
    |line: Seq<char>| mount_line(line)
}

fn read_mount_line(line: &[char]) -> (out: Option<FilesystemInfo>)
    ensures
        out is Some <==> mount_line(line@) is Some,
        out matches Some(f) ==> mount_line(line@) == Some(f@),
{
    let w = words_of(line);
    assert(views(w@).len() == w@.len());
    if w.len() < 4 {
        return None;
    }
    assert(views(w@)[0] == w@[0]@);
    assert(views(w@)[1] == w@[1]@);
    assert(views(w@)[2] == w@[2]@);
    assert(views(w@)[3] == w@[3]@);
    Some(
        FilesystemInfo {
            device: from_chars(w[0].as_slice()),
            mountpoint: Some(from_chars(w[1].as_slice())),
            fstype: from_chars(w[2].as_slice()),
            uuid: None,
            label: None,
            options: Some(from_chars(w[3].as_slice())),
        },
    )
}

/// Reads the mount table.
pub fn parse_proc_mounts(s: &str) -> (out: Vec<FilesystemInfo>)
    ensures
        facts(out@) == picked(lines(s@), mount_rule()),
{
    let list = lines_of(to_chars(s).as_slice());
    let ghost all = lines(s@);
    let mut out: Vec<FilesystemInfo> = Vec::new();
    let mut i: usize = 0;
    assert(all.take(0) =~= Seq::<Seq<char>>::empty());
    assert(facts(out@) =~= Seq::<FilesystemFact>::empty());
    while i < list.len()
        invariant
            i <= list@.len(),
            views(list@) == all,
            facts(out@) == picked(all.take(i as int), mount_rule()),
        decreases list@.len() - i,
    {
        assert(all[i as int] == list@[i as int]@);
        proof {
            picked_step(all, mount_rule(), i as int);
        }
        if let Some(f) = read_mount_line(list[i].as_slice()) {
            proof {
                facts_push(out@, f);
            }
            out.push(f);
        }
        i += 1;
    }
    assert(all.take(i as int) =~= all);
    out
}

/// The file systems of a host, and the warning where nothing is known of them.
pub fn read_filesystems(mounts: Option<&str>) -> (out: (
    Vec<FilesystemInfo>,
    Option<CaptureWarning>,
))
    ensures
        match mounts {
            Some(s) => facts(out.0@) == picked(lines(s@), mount_rule()) && out.1 is None,
            None => {
                &&& out.0@.len() == 0
                &&& out.1 matches Some(w)
                &&& w@ == ("filesystems"@, "/proc/mounts unreadable"@, None::<Seq<char>>)
            },
        },
{
    match mounts {
        Some(s) => (parse_proc_mounts(s), None),
        None => (
            Vec::new(),
            Some(CaptureWarning::new("filesystems", "/proc/mounts unreadable")),
        ),
    }
}

/// The service that a line names.
pub open spec fn service_line(line: Seq<char>) -> Option<(Seq<char>, Seq<char>)> {
    let w = words(line);
    if w.len() < 2 {
        None
    } else {
        Some((w[0], w[1]))
    }
}

pub open spec fn service_rule() -> spec_fn(Seq<char>) -> Option<(Seq<char>, Seq<char>)> {
    |line: Seq<char>| service_line(line)
}

/// Reads the list of services that are started with the system.
pub fn parse_systemctl_enabled(s: &str) -> (out: Vec<EnabledService>)
    ensures
        facts(out@) == picked(lines(s@), service_rule()),
{
    let list = lines_of(to_chars(s).as_slice());
    let ghost all = lines(s@);
    let mut out: Vec<EnabledService> = Vec::new();
    let mut i: usize = 0;
    assert(all.take(0) =~= Seq::<Seq<char>>::empty());
    assert(facts(out@) =~= Seq::<(Seq<char>, Seq<char>)>::empty());
    while i < list.len()
        invariant
            i <= list@.len(),
            views(list@) == all,
            facts(out@) == picked(all.take(i as int), service_rule()),
        decreases list@.len() - i,
    {
        assert(all[i as int] == list@[i as int]@);
        proof {
            picked_step(all, service_rule(), i as int);
        }
        let w = words_of(list[i].as_slice());
        assert(views(w@).len() == w@.len());
        if w.len() >= 2 {
            assert(views(w@)[0] == w@[0]@);
            assert(views(w@)[1] == w@[1]@);
            let service = EnabledService {
                name: from_chars(w[0].as_slice()),
                state: from_chars(w[1].as_slice()),
            };
            proof {
                facts_push(out@, service);
            }
            out.push(service);
        }
        i += 1;
    }
    assert(all.take(i as int) =~= all);
    out
}

// --- Firmware ------------------------------------------------------------------------------

/// Whether a firmware variable is set: its value follows four bytes of attributes.
pub fn variable_set(bytes: &[u8]) -> (yes: bool)
    ensures
        yes == (bytes@.len() >= 5 && bytes@[4] == 1),
{
    bytes.len() >= 5 && bytes[4] == 1
}

/// Whether a firmware variable tells of secure boot.
pub fn is_secure_boot_variable(name: &str) -> (yes: bool)
    ensures
        yes == has_prefix(name@, "SecureBoot-"@),
{
    starts_with(to_chars(name).as_slice(), "SecureBoot-")
}

/// The firmware of a host. `secure_boot` is the content of the variable of that name.
pub fn read_firmware(
    uefi: bool,
    secure_boot: Option<&[u8]>,
    vendor: Option<&str>,
    version: Option<&str>,
    release_date: Option<&str>,
) -> (out: FirmwareInfo)
    ensures
        out.uefi == uefi,
        out.secure_boot == (uefi && secure_boot is Some && secure_boot->0@.len() >= 5
            && secure_boot->0@[4] == 1),
        opt_text(out.vendor) == named(str_view(vendor)),
        opt_text(out.version) == named(str_view(version)),
        opt_text(out.release_date) == named(str_view(release_date)),
{
    let set = match secure_boot {
        Some(bytes) => variable_set(bytes),
        None => false,
    };
    FirmwareInfo {
        vendor: nonempty(vendor),
        version: nonempty(version),
        release_date: nonempty(release_date),
        uefi,
        secure_boot: uefi && set,
    }
}

// --- The fingerprint -----------------------------------------------------------------------

/// All that was captured of a host.
#[derive(Debug)]
pub struct SystemFingerprint {
    pub version: u32,
    pub captured_at_epoch_s: u64,
    pub captured_by: String,
    pub hostname: String,
    pub fqdn: Option<String>,
    pub machine_id: Option<String>,
    pub kernel: KernelInfo,
    pub cpu: CpuInfo,
    pub memory_bytes: u64,
    pub disks: Vec<DiskLayout>,
    /// What the volume manager reports of itself.
    pub lvm: Option<String>,
    /// What the software RAID reports of itself.
    pub mdadm: Option<String>,
    pub filesystems: Vec<FilesystemInfo>,
    pub fstab: String,
    pub crypttab: Option<String>,
    pub network: NetworkConfig,
    pub bootloader: BootloaderConfig,
    pub packages: PackageManifest,
    pub services: Vec<EnabledService>,
    pub users: UserDatabaseRef,
    pub ssh_host_keys: SshHostKeysRef,
    pub firmware: FirmwareInfo,
    pub warnings: Vec<CaptureWarning>,
}

/// What a collector hands back: what it found, with warnings.
pub type Collected<T> = Result<(T, Vec<CaptureWarning>), LazarusError>;

/// What the collectors hand back that run beside each other.
pub struct Collectors {
    pub disks: Collected<Vec<DiskLayout>>,
    pub network: Collected<NetworkConfig>,
    pub packages: Collected<PackageManifest>,
    pub bootloader: Collected<BootloaderConfig>,
    pub users: Collected<UserDatabaseRef>,
    pub ssh_host_keys: Collected<SshHostKeysRef>,
    pub lvm: Collected<Option<String>>,
    pub mdadm: Collected<Option<String>>,
}

/// Whether a part of a fingerprint is what the collector found; or, where the part is not wanted,
/// is blank and comes without warnings, whatever the collector did.
pub open spec fn part_kept<T>(
    wanted: bool,
    found: Collected<T>,
    kept: Collected<T>,
    blank: spec_fn(T) -> bool,
) -> bool {
    if wanted {
        kept == found
    } else {
        kept matches Ok(part) && blank(part.0) && part.1@.len() == 0
    }
}

/// Leaves out the parts that are not wanted. The disks are always wanted.
pub fn keep_wanted(opts: &CaptureOpts, collected: Collectors) -> (out: Collectors)
    ensures
        out.disks == collected.disks,
        part_kept(
            opts.include_network,
            collected.network,
            out.network,
            |part: NetworkConfig| part.is_blank(),
        ),
        part_kept(
            opts.include_packages,
            collected.packages,
            out.packages,
            |part: PackageManifest| part.is_blank(),
        ),
        part_kept(
            opts.include_bootloader,
            collected.bootloader,
            out.bootloader,
            |part: BootloaderConfig| part.is_blank(),
        ),
        part_kept(
            opts.include_users,
            collected.users,
            out.users,
            |part: UserDatabaseRef| part.is_blank(),
        ),
        part_kept(
            opts.include_ssh_keys,
            collected.ssh_host_keys,
            out.ssh_host_keys,
            |part: SshHostKeysRef| part.blob_chunk is None,
        ),
        part_kept(
            opts.include_lvm,
            collected.lvm,
            out.lvm,
            |part: Option<String>| part is None,
        ),
        part_kept(
            opts.include_mdadm,
            collected.mdadm,
            out.mdadm,
            |part: Option<String>| part is None,
        ),
{
    let mut out = collected;
    if !opts.include_network {
        out.network = Ok((NetworkConfig::default(), Vec::new()));
    }
    if !opts.include_packages {
        out.packages = Ok((PackageManifest::default(), Vec::new()));
    }
    if !opts.include_bootloader {
        out.bootloader = Ok((BootloaderConfig::default(), Vec::new()));
    }
    if !opts.include_users {
        out.users = Ok((UserDatabaseRef::empty(), Vec::new()));
    }
    if !opts.include_ssh_keys {
        out.ssh_host_keys = Ok((SshHostKeysRef::empty(), Vec::new()));
    }
    if !opts.include_lvm {
        out.lvm = Ok((None, Vec::new()));
    }
    if !opts.include_mdadm {
        out.mdadm = Ok((None, Vec::new()));
    }
    out
}

/// The parts of a fingerprint that come from plain files of the system.
pub struct HostBasics {
    pub captured_at_epoch_s: u64,
    pub captured_by: String,
    pub hostname: String,
    pub fqdn: Option<String>,
    pub machine_id: Option<String>,
    pub kernel: KernelInfo,
    pub cpu: CpuInfo,
    pub memory_bytes: u64,
    pub filesystems: Vec<FilesystemInfo>,
    pub fstab: String,
    pub crypttab: Option<String>,
    pub services: Vec<EnabledService>,
    pub firmware: FirmwareInfo,
    pub warnings: Vec<CaptureWarning>,
}

/// The first error of the collectors, in a fixed order.
pub open spec fn first_failure(c: Collectors) -> Option<LazarusError> {
    if c.disks is Err {
        Some(c.disks->Err_0)
    } else if c.network is Err {
        Some(c.network->Err_0)
    } else if c.packages is Err {
        Some(c.packages->Err_0)
    } else if c.bootloader is Err {
        Some(c.bootloader->Err_0)
    } else if c.users is Err {
        Some(c.users->Err_0)
    } else if c.ssh_host_keys is Err {
        Some(c.ssh_host_keys->Err_0)
    } else if c.lvm is Err {
        Some(c.lvm->Err_0)
    } else if c.mdadm is Err {
        Some(c.mdadm->Err_0)
    } else {
        None
    }
}

/// The warnings of a host: those of its basics, then those of the collectors in a fixed order.
pub open spec fn all_warnings(b: HostBasics, c: Collectors) -> Seq<CaptureWarning> {
    b.warnings@ + (c.disks->Ok_0).1@ + (c.network->Ok_0).1@ + (c.packages->Ok_0).1@ + (
    c.bootloader->Ok_0).1@ + (c.users->Ok_0).1@ + (c.ssh_host_keys->Ok_0).1@ + (c.lvm->Ok_0).1@ + (
    c.mdadm->Ok_0).1@
}

/// Puts a fingerprint together. The first collector that failed decides the error.
pub fn assemble_fingerprint(basics: HostBasics, collected: Collectors) -> (out: Result<
    SystemFingerprint,
    LazarusError,
>)
    ensures
        match (out, first_failure(collected)) {
            (Err(e), Some(first)) => e == first,
            (Ok(fp), None) => {
                &&& fp.version == FINGERPRINT_VERSION
                &&& fp.captured_at_epoch_s == basics.captured_at_epoch_s
                &&& fp.captured_by == basics.captured_by
                &&& fp.hostname == basics.hostname
                &&& fp.fqdn == basics.fqdn
                &&& fp.machine_id == basics.machine_id
                &&& fp.kernel == basics.kernel
                &&& fp.cpu == basics.cpu
                &&& fp.memory_bytes == basics.memory_bytes
                &&& fp.filesystems == basics.filesystems
                &&& fp.fstab == basics.fstab
                &&& fp.crypttab == basics.crypttab
                &&& fp.services == basics.services
                &&& fp.firmware == basics.firmware
                &&& fp.disks == (collected.disks->Ok_0).0
                &&& fp.network == (collected.network->Ok_0).0
                &&& fp.packages == (collected.packages->Ok_0).0
                &&& fp.bootloader == (collected.bootloader->Ok_0).0
                &&& fp.users == (collected.users->Ok_0).0
                &&& fp.ssh_host_keys == (collected.ssh_host_keys->Ok_0).0
                &&& fp.lvm == (collected.lvm->Ok_0).0
                &&& fp.mdadm == (collected.mdadm->Ok_0).0
                &&& fp.warnings@ == all_warnings(basics, collected)
            },
            _ => false,
        },
{
    let Collectors {
        disks,
        network,
        packages,
        bootloader,
        users,
        ssh_host_keys,
        lvm,
        mdadm,
    } = collected;
    let (disks, mut disks_warn) = match disks {
        Ok(x) => x,
        Err(e) => {
            return Err(e);
        },
    };
    let (network, mut network_warn) = match network {
        Ok(x) => x,
        Err(e) => {
            return Err(e);
        },
    };
    let (packages, mut packages_warn) = match packages {
        Ok(x) => x,
        Err(e) => {
            return Err(e);
        },
    };
    let (bootloader, mut bootloader_warn) = match bootloader {
        Ok(x) => x,
        Err(e) => {
            return Err(e);
        },
    };
    let (users, mut users_warn) = match users {
        Ok(x) => x,
        Err(e) => {
            return Err(e);
        },
    };
    let (ssh_host_keys, mut ssh_warn) = match ssh_host_keys {
        Ok(x) => x,
        Err(e) => {
            return Err(e);
        },
    };
    let (lvm, mut lvm_warn) = match lvm {
        Ok(x) => x,
        Err(e) => {
            return Err(e);
        },
    };
    let (mdadm, mut mdadm_warn) = match mdadm {
        Ok(x) => x,
        Err(e) => {
            return Err(e);
        },
    };
    let mut warnings = basics.warnings;
    warnings.append(&mut disks_warn);
    warnings.append(&mut network_warn);
    warnings.append(&mut packages_warn);
    warnings.append(&mut bootloader_warn);
    warnings.append(&mut users_warn);
    warnings.append(&mut ssh_warn);
    warnings.append(&mut lvm_warn);
    warnings.append(&mut mdadm_warn);
    Ok(
        SystemFingerprint {
            version: FINGERPRINT_VERSION,
            captured_at_epoch_s: basics.captured_at_epoch_s,
            captured_by: basics.captured_by,
            hostname: basics.hostname,
            fqdn: basics.fqdn,
            machine_id: basics.machine_id,
            kernel: basics.kernel,
            cpu: basics.cpu,
            memory_bytes: basics.memory_bytes,
            disks,
            lvm,
            mdadm,
            filesystems: basics.filesystems,
            fstab: basics.fstab,
            crypttab: basics.crypttab,
            network,
            bootloader,
            packages,
            services: basics.services,
            users,
            ssh_host_keys,
            firmware: basics.firmware,
            warnings,
        },
    )
}

/// What is known of a system is read line by line, from nothing known.
pub proof fn lines_add_to_what_is_known(list: Seq<Seq<char>>, line: Seq<char>)
    ensures
        release_of(Seq::empty()) == (Seq::<char>::empty(), Seq::<char>::empty()),
        release_of(list.push(line)) == release_step(release_of(list), line),
        cpu_scan(Seq::empty()).logical == 0,
        cpu_scan(Seq::empty()).sockets.len() == 0,
        cpu_scan(list.push(line)) == cpu_step(cpu_scan(list), line),
{
    assert(list.push(line).drop_last() =~= list);
}

/// The first line that names the memory decides.
pub proof fn the_first_memory_line_decides(list: Seq<Seq<char>>, k: int, rest: Seq<char>)
    requires
        0 <= k < list.len(),
        list[k] == "MemTotal:"@ + rest,
        forall|j: int| 0 <= j < k ==> !has_prefix(#[trigger] list[j], "MemTotal:"@),
    ensures
        memory_of(list, 0) == memory_line(rest),
{
    assert(list[k].take("MemTotal:"@.len() as int) =~= "MemTotal:"@);
    assert(list[k].skip("MemTotal:"@.len() as int) =~= rest);
    memory_found(list, 0, k);
}

proof fn memory_found(list: Seq<Seq<char>>, from: int, k: int)
    requires
        0 <= from <= k < list.len(),
        has_prefix(list[k], "MemTotal:"@),
        forall|j: int| from <= j < k ==> !has_prefix(#[trigger] list[j], "MemTotal:"@),
    ensures
        memory_of(list, from) == memory_line(list[k].skip("MemTotal:"@.len() as int)),
    decreases k - from,
{
    if from < k {
        memory_found(list, from + 1, k);
    }
}

/// Mounts and services are read by the rules for their lines.
pub proof fn mounts_and_services_have_rules(line: Seq<char>)
    ensures
        mount_rule()(line) == mount_line(line),
        service_rule()(line) == service_line(line),
{
}

/// A part that is wanted is what was found, error or not; one that is not wanted is blank, comes
/// without warnings and cannot fail.
pub proof fn unwanted_parts_are_blank<T>(
    wanted: bool,
    found: Collected<T>,
    kept: Collected<T>,
    blank: spec_fn(T) -> bool,
)
    requires
        part_kept(wanted, found, kept, blank),
    ensures
        wanted ==> kept == found,
        !wanted ==> kept is Ok && blank((kept->Ok_0).0) && (kept->Ok_0).1@.len() == 0,
{
}

/// A fingerprint fails where a collector failed, with the error of the first in the order of the
/// parts.
pub proof fn the_first_failure_decides(c: Collectors)
    ensures
        first_failure(c) is None <==> c.disks is Ok && c.network is Ok && c.packages is Ok
            && c.bootloader is Ok && c.users is Ok && c.ssh_host_keys is Ok && c.lvm is Ok
            && c.mdadm is Ok,
        c.disks matches Err(e) ==> first_failure(c) == Some(e),
        c.disks is Ok && c.network is Err ==> first_failure(c) == Some(c.network->Err_0),
        c.disks is Ok && c.network is Ok && c.packages is Err ==> first_failure(c) == Some(
            c.packages->Err_0,
        ),
        c.disks is Ok && c.network is Ok && c.packages is Ok && c.bootloader is Err
            ==> first_failure(c) == Some(c.bootloader->Err_0),
        c.disks is Ok && c.network is Ok && c.packages is Ok && c.bootloader is Ok && c.users is Err
            ==> first_failure(c) == Some(c.users->Err_0),
{
}

/// No warning is lost: there are as many as the basics and the parts have together, those of the
/// basics first.
pub proof fn no_warning_is_lost(b: HostBasics, c: Collectors)
    ensures
        all_warnings(b, c).len() == b.warnings@.len() + (c.disks->Ok_0).1@.len() + (
        c.network->Ok_0).1@.len() + (c.packages->Ok_0).1@.len() + (c.bootloader->Ok_0).1@.len() + (
        c.users->Ok_0).1@.len() + (c.ssh_host_keys->Ok_0).1@.len() + (c.lvm->Ok_0).1@.len() + (
        c.mdadm->Ok_0).1@.len(),
        forall|i: int|
            0 <= i < b.warnings@.len() ==> all_warnings(b, c)[i] == #[trigger] b.warnings@[i],
        forall|i: int|
            0 <= i < (c.disks->Ok_0).1@.len() ==> all_warnings(b, c)[b.warnings@.len() + i] == (
            #[trigger] (c.disks->Ok_0).1@[i]),
{
}

} // verus!
