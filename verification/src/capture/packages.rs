//! The installed packages and where they come from.
use crate::capture::system::CaptureWarning;
use crate::capture::system::NamedBlob;
use crate::catalog::rows::facts;
use crate::catalog::rows::facts_push;
use crate::snapshot::snapshotter::ToolCall;
use crate::text::all_digits;
use crate::text::chars_are;
use crate::text::concat3;
use crate::text::from_chars;
use crate::text::last_part;
use crate::text::last_position;
use crate::text::lines;
use crate::text::lines_of;
use crate::text::only_digits;
use crate::text::opt_text;
use crate::text::picked;
use crate::text::picked_step;
use crate::text::split;
use crate::text::split_on;
use crate::text::sub_chars;
use crate::text::to_chars;
use crate::text::trim;
use crate::text::trimmed;
use crate::text::views;
use crate::text::words;
use crate::text::words_of;
use vstd::prelude::*;

verus! {

/// The program that manages packages.
#[derive(Debug, Clone, Copy, PartialEq, Eq, Structural)]
pub enum PackageManager {
    Dpkg,
    Rpm,
    Pacman,
    Apk,
    Unknown,
}

impl Default for PackageManager {
    fn default() -> (out: Self)
        ensures
            out == PackageManager::Unknown,
    {
        PackageManager::Unknown
    }
}

/// An installed package.
#[verifier::ext_equal]
pub struct PackageFact {
    pub name: Seq<char>,
    pub version: Seq<char>,
    pub architecture: Option<Seq<char>>,
    pub origin: Option<Seq<char>>,
    pub explicitly_installed: bool,
}

/// An installed package.
#[derive(Debug)]
pub struct PackageEntry {
    pub name: String,
    pub version: String,
    pub architecture: Option<String>,
    pub origin: Option<String>,
    pub explicitly_installed: bool,
}

impl View for PackageEntry {
    type V = PackageFact;

    open spec fn view(&self) -> PackageFact {
        PackageFact {
            name: self.name@,
            version: self.version@,
            architecture: opt_text(self.architecture),
            origin: opt_text(self.origin),
            explicitly_installed: self.explicitly_installed,
        }
    }
}

/// The installed packages with the configuration of the package manager.
#[derive(Debug)]
pub struct PackageManifest {
    pub manager: PackageManager,
    pub packages: Vec<PackageEntry>,
    pub repository_files: Vec<NamedBlob>,
    pub keyrings: Vec<NamedBlob>,
}

impl PackageManifest {
    /// Whether nothing is known of the packages.
    pub open spec fn is_blank(self) -> bool {
        &&& self.manager == PackageManager::Unknown
        &&& self.packages@.len() == 0
        &&& self.repository_files@.len() == 0
        &&& self.keyrings@.len() == 0
    }
}

impl Default for PackageManifest {
    fn default() -> (out: Self)
        ensures
            out.is_blank(),
    {
        PackageManifest {
            manager: PackageManager::Unknown,
            packages: Vec::new(),
            repository_files: Vec::new(),
            keyrings: Vec::new(),
        }
    }
}

/// A package of which only the name, the version and the architecture are known.
pub open spec fn plain_package(
    name: Seq<char>,
    version: Seq<char>,
    architecture: Option<Seq<char>>,
) -> PackageFact {
    PackageFact { name, version, architecture, origin: None, explicitly_installed: false }
}

fn entry(name: &[char], version: &[char], architecture: Option<String>) -> (out: PackageEntry)
    ensures
        out@ == plain_package(name@, version@, opt_text(architecture)),
{
    PackageEntry {
        name: from_chars(name),
        version: from_chars(version),
        architecture,
        origin: None,
        explicitly_installed: false,
    }
}

// --- dpkg ----------------------------------------------------------------------------------

/// What a line of `dpkg-query` says: name, version, architecture and status between tabs.
pub open spec fn dpkg_line(line: Seq<char>) -> Option<PackageFact> {
    let parts = split_on(line, '\t');
    if parts.len() < 3 || (parts.len() > 3 && parts[3] != "installed"@) {
        None
    } else {
        Some(plain_package(parts[0], parts[1], Some(parts[2])))
    }
}

pub open spec fn dpkg_rule() -> spec_fn(Seq<char>) -> Option<PackageFact> {
    |line: Seq<char>| dpkg_line(line)
}

fn read_dpkg_line(line: &[char]) -> (out: Option<PackageEntry>)
    ensures
        out is Some <==> dpkg_line(line@) is Some,
        out matches Some(p) ==> dpkg_line(line@) == Some(p@),
{
    let parts = split(line, '\t');
    assert(views(parts@).len() == parts@.len());
    if parts.len() < 3 {
        return None;
    }
    if parts.len() > 3 {
        assert(views(parts@)[3] == parts@[3]@);
        if !chars_are(parts[3].as_slice(), "installed") {
            return None;
        }
    }
    assert(views(parts@)[0] == parts@[0]@);
    assert(views(parts@)[1] == parts@[1]@);
    assert(views(parts@)[2] == parts@[2]@);
    let arch = from_chars(parts[2].as_slice());
    Some(entry(parts[0].as_slice(), parts[1].as_slice(), Some(arch)))
}

/// Reads the output of `dpkg-query`. Packages that are not installed any more are left out.
pub fn parse_dpkg_query(s: &str) -> (out: Vec<PackageEntry>)
    ensures
        facts(out@) == picked(lines(s@), dpkg_rule()),
{
    let list = lines_of(to_chars(s).as_slice());
    let ghost all = lines(s@);
    let mut out: Vec<PackageEntry> = Vec::new();
    let mut i: usize = 0;
    assert(all.take(0) =~= Seq::<Seq<char>>::empty());
    assert(facts(out@) =~= Seq::<PackageFact>::empty());
    while i < list.len()
        invariant
            i <= list@.len(),
            views(list@) == all,
            facts(out@) == picked(all.take(i as int), dpkg_rule()),
        decreases list@.len() - i,
    {
        assert(all[i as int] == list@[i as int]@);
        proof {
            picked_step(all, dpkg_rule(), i as int);
        }
        if let Some(p) = read_dpkg_line(list[i].as_slice()) {
            proof {
                facts_push(out@, p);
            }
            out.push(p);
        }
        i += 1;
    }
    assert(all.take(i as int) =~= all);
    out
}

// --- rpm -----------------------------------------------------------------------------------

/// What a line of `rpm -qa` says: name, version and perhaps architecture between tabs.
pub open spec fn rpm_line(line: Seq<char>) -> Option<PackageFact> {
    let parts = split_on(line, '\t');
    if parts.len() < 2 {
        None
    } else {
        Some(
            plain_package(
                parts[0],
                parts[1],
                if parts.len() > 2 {
                    Some(parts[2])
                } else {
                    None
                },
            ),
        )
    }
}

pub open spec fn rpm_rule() -> spec_fn(Seq<char>) -> Option<PackageFact> {
    |line: Seq<char>| rpm_line(line)
}

fn read_rpm_line(line: &[char]) -> (out: Option<PackageEntry>)
    ensures
        out is Some <==> rpm_line(line@) is Some,
        out matches Some(p) ==> rpm_line(line@) == Some(p@),
{
    let parts = split(line, '\t');
    assert(views(parts@).len() == parts@.len());
    if parts.len() < 2 {
        return None;
    }
    assert(views(parts@)[0] == parts@[0]@);
    assert(views(parts@)[1] == parts@[1]@);
    let arch = if parts.len() > 2 {
        assert(views(parts@)[2] == parts@[2]@);
        Some(from_chars(parts[2].as_slice()))
    } else {
        None
    };
    Some(entry(parts[0].as_slice(), parts[1].as_slice(), arch))
}

/// Reads the output of `rpm -qa`.
pub fn parse_rpm_qa(s: &str) -> (out: Vec<PackageEntry>)
    ensures
        facts(out@) == picked(lines(s@), rpm_rule()),
{
    let list = lines_of(to_chars(s).as_slice());
    let ghost all = lines(s@);
    let mut out: Vec<PackageEntry> = Vec::new();
    let mut i: usize = 0;
    assert(all.take(0) =~= Seq::<Seq<char>>::empty());
    assert(facts(out@) =~= Seq::<PackageFact>::empty());
    while i < list.len()
        invariant
            i <= list@.len(),
            views(list@) == all,
            facts(out@) == picked(all.take(i as int), rpm_rule()),
        decreases list@.len() - i,
    {
        assert(all[i as int] == list@[i as int]@);
        proof {
            picked_step(all, rpm_rule(), i as int);
        }
        if let Some(p) = read_rpm_line(list[i].as_slice()) {
            proof {
                facts_push(out@, p);
            }
            out.push(p);
        }
        i += 1;
    }
    assert(all.take(i as int) =~= all);
    out
}

// --- pacman --------------------------------------------------------------------------------

/// What a line of `pacman -Q` says: name and version.
pub open spec fn pacman_line(line: Seq<char>) -> Option<PackageFact> {
    let parts = words(line);
    if parts.len() < 2 {
        None
    } else {
        Some(plain_package(parts[0], parts[1], None))
    }
}

pub open spec fn pacman_rule() -> spec_fn(Seq<char>) -> Option<PackageFact> {
    |line: Seq<char>| pacman_line(line)
}

fn read_pacman_line(line: &[char]) -> (out: Option<PackageEntry>)
    ensures
        out is Some <==> pacman_line(line@) is Some,
        out matches Some(p) ==> pacman_line(line@) == Some(p@),
{
    let parts = words_of(line);
    assert(views(parts@).len() == parts@.len());
    if parts.len() < 2 {
        return None;
    }
    assert(views(parts@)[0] == parts@[0]@);
    assert(views(parts@)[1] == parts@[1]@);
    Some(entry(parts[0].as_slice(), parts[1].as_slice(), None))
}

/// Reads the output of `pacman -Q`.
pub fn parse_pacman_q(s: &str) -> (out: Vec<PackageEntry>)
    ensures
        facts(out@) == picked(lines(s@), pacman_rule()),
{
    let list = lines_of(to_chars(s).as_slice());
    let ghost all = lines(s@);
    let mut out: Vec<PackageEntry> = Vec::new();
    let mut i: usize = 0;
    assert(all.take(0) =~= Seq::<Seq<char>>::empty());
    assert(facts(out@) =~= Seq::<PackageFact>::empty());
    while i < list.len()
        invariant
            i <= list@.len(),
            views(list@) == all,
            facts(out@) == picked(all.take(i as int), pacman_rule()),
        decreases list@.len() - i,
    {
        assert(all[i as int] == list@[i as int]@);
        proof {
            picked_step(all, pacman_rule(), i as int);
        }
        if let Some(p) = read_pacman_line(list[i].as_slice()) {
            proof {
                facts_push(out@, p);
            }
            out.push(p);
        }
        i += 1;
    }
    assert(all.take(i as int) =~= all);
    out
}

// --- apk -----------------------------------------------------------------------------------

/// What a line of `apk info -v` says: name, version and release with hyphens between them, such
/// as `name-1.2.3-r0`. The release belongs to the version.
pub open spec fn apk_line(line: Seq<char>) -> Option<PackageFact> {
    let t = trim(line);
    match last_part(t, "-r"@, t.len() as int) {
        None => None,
        Some(r) => {
            let front = t.take(r);
            if !all_digits(t.skip(r + 2)) {
                None
            } else {
                match last_part(front, "-"@, front.len() as int) {
                    None => None,
                    Some(dash) => Some(plain_package(front.take(dash), t.skip(dash + 1), None)),
                }
            }
        },
    }
}

pub open spec fn apk_rule() -> spec_fn(Seq<char>) -> Option<PackageFact> {
    |line: Seq<char>| apk_line(line)
}

fn read_apk_line(line: &[char]) -> (out: Option<PackageEntry>)
    ensures
        out is Some <==> apk_line(line@) is Some,
        out matches Some(p) ==> apk_line(line@) == Some(p@),
{
    proof {
        reveal_strlit("-r");
        reveal_strlit("-");
    }
    let t = trimmed(line);
    let r = match last_position(t.as_slice(), "-r") {
        Some(r) => r,
        None => {
            return None;
        },
    };
    let len: usize = t.len();
    assert("-r"@.len() == 2 && r + 2 <= len);
    let suffix = sub_chars(t.as_slice(), r + 2, len);
    assert(suffix@ =~= t@.skip(r + 2));
    if !only_digits(suffix.as_slice()) {
        return None;
    }
    let front = sub_chars(t.as_slice(), 0, r);
    assert(front@ =~= t@.take(r as int));
    let dash = match last_position(front.as_slice(), "-") {
        Some(d) => d,
        None => {
            return None;
        },
    };
    let name = sub_chars(front.as_slice(), 0, dash);
    let version = sub_chars(t.as_slice(), dash + 1, len);
    assert(name@ =~= front@.take(dash as int));
    assert(version@ =~= t@.skip(dash + 1));
    Some(entry(name.as_slice(), version.as_slice(), None))
}

/// Reads the output of `apk info -v`.
pub fn parse_apk_info(s: &str) -> (out: Vec<PackageEntry>)
    ensures
        facts(out@) == picked(lines(s@), apk_rule()),
{
    let list = lines_of(to_chars(s).as_slice());
    let ghost all = lines(s@);
    let mut out: Vec<PackageEntry> = Vec::new();
    let mut i: usize = 0;
    assert(all.take(0) =~= Seq::<Seq<char>>::empty());
    assert(facts(out@) =~= Seq::<PackageFact>::empty());
    while i < list.len()
        invariant
            i <= list@.len(),
            views(list@) == all,
            facts(out@) == picked(all.take(i as int), apk_rule()),
        decreases list@.len() - i,
    {
        assert(all[i as int] == list@[i as int]@);
        proof {
            picked_step(all, apk_rule(), i as int);
        }
        if let Some(p) = read_apk_line(list[i].as_slice()) {
            proof {
                facts_push(out@, p);
            }
            out.push(p);
        }
        i += 1;
    }
    assert(all.take(i as int) =~= all);
    out
}

// --- Managers ------------------------------------------------------------------------------

/// Which of the files that give a package manager away exist.
#[derive(Debug, Clone, Copy)]
pub struct ManagerTraces {
    pub dpkg_status: bool,
    pub rpm_packages: bool,
    pub rpm_sqlite: bool,
    pub pacman_local: bool,
    pub apk_installed: bool,
}

/// The package manager of the host.
pub fn detect_manager(t: ManagerTraces) -> (out: PackageManager)
    ensures
        out == if t.dpkg_status {
            PackageManager::Dpkg
        } else if t.rpm_packages || t.rpm_sqlite {
            PackageManager::Rpm
        } else if t.pacman_local {
            PackageManager::Pacman
        } else if t.apk_installed {
            PackageManager::Apk
        } else {
            PackageManager::Unknown
        },
{
    if t.dpkg_status {
        PackageManager::Dpkg
    } else if t.rpm_packages || t.rpm_sqlite {
        PackageManager::Rpm
    } else if t.pacman_local {
        PackageManager::Pacman
    } else if t.apk_installed {
        PackageManager::Apk
    } else {
        PackageManager::Unknown
    }
}

/// The command that lists the packages.
pub fn list_command(manager: PackageManager) -> (out: Option<ToolCall>)
    ensures
        match manager {
            PackageManager::Dpkg => out matches Some(c) && c@ == seq![
                "dpkg-query"@,
                "-W"@,
                "-f=${Package}\t${Version}\t${Architecture}\t${db:Status-Status}\n"@,
            ],
            PackageManager::Rpm => out matches Some(c) && c@ == seq![
                "rpm"@,
                "-qa"@,
                "--queryformat"@,
                "%{NAME}\t%{VERSION}-%{RELEASE}\t%{ARCH}\n"@,
            ],
            PackageManager::Pacman => out matches Some(c) && c@ == seq!["pacman"@, "-Q"@],
            PackageManager::Apk => out matches Some(c) && c@ == seq!["apk"@, "info"@, "-v"@],
            PackageManager::Unknown => out is None,
        },
{
    match manager {
        PackageManager::Dpkg => Some(
            ToolCall::new("dpkg-query").arg("-W").arg(
                "-f=${Package}\t${Version}\t${Architecture}\t${db:Status-Status}\n",
            ),
        ),
        PackageManager::Rpm => Some(
            ToolCall::new("rpm").arg("-qa").arg("--queryformat").arg(
                "%{NAME}\t%{VERSION}-%{RELEASE}\t%{ARCH}\n",
            ),
        ),
        PackageManager::Pacman => Some(ToolCall::new("pacman").arg("-Q")),
        PackageManager::Apk => Some(ToolCall::new("apk").arg("info").arg("-v")),
        PackageManager::Unknown => None,
    }
}

/// What a package manager is called in messages.
pub open spec fn command_name(manager: PackageManager) -> Seq<char> {
    match manager {
        PackageManager::Dpkg => "dpkg-query"@,
        PackageManager::Rpm => "rpm -qa"@,
        PackageManager::Pacman => "pacman -Q"@,
        PackageManager::Apk => "apk info"@,
        PackageManager::Unknown => Seq::empty(),
    }
}

/// The packages that a manager lists.
pub open spec fn packages_in(manager: PackageManager, text: Seq<char>) -> Seq<PackageFact> {
    match manager {
        PackageManager::Dpkg => picked(lines(text), dpkg_rule()),
        PackageManager::Rpm => picked(lines(text), rpm_rule()),
        PackageManager::Pacman => picked(lines(text), pacman_rule()),
        PackageManager::Apk => picked(lines(text), apk_rule()),
        PackageManager::Unknown => Seq::empty(),
    }
}

/// The packages of the host, from what the list command printed or the text of its error, and the
/// warning where they could not be had.
pub fn read_packages(manager: PackageManager, listing: Result<String, String>) -> (out: (
    Vec<PackageEntry>,
    Option<CaptureWarning>,
))
    ensures
        match (manager, listing) {
            (PackageManager::Unknown, _) => {
                &&& out.0@.len() == 0
                &&& out.1 matches Some(w)
                &&& w@ == (
                    "packages"@,
                    "no supported package manager detected"@,
                    Some("this is a non-fatal warning; the host is not a supported distro"@),
                )
            },
            (_, Ok(text)) => facts(out.0@) == packages_in(manager, text@) && out.1 is None,
            (_, Err(e)) => {
                &&& out.0@.len() == 0
                &&& out.1 matches Some(w)
                &&& w@ == (
                    "packages"@,
                    command_name(manager) + " failed: "@ + e@,
                    None::<Seq<char>>,
                )
            },
        },
{
    let name = match manager {
        PackageManager::Unknown => {
            return (
                Vec::new(),
                Some(
                    CaptureWarning::new(
                        "packages",
                        "no supported package manager detected",
                    ).with_remediation(
                        "this is a non-fatal warning; the host is not a supported distro",
                    ),
                ),
            );
        },
        PackageManager::Dpkg => "dpkg-query",
        PackageManager::Rpm => "rpm -qa",
        PackageManager::Pacman => "pacman -Q",
        PackageManager::Apk => "apk info",
    };
    match listing {
        Ok(text) => {
            let packages = match manager {
                PackageManager::Dpkg => parse_dpkg_query(text.as_str()),
                PackageManager::Rpm => parse_rpm_qa(text.as_str()),
                PackageManager::Pacman => parse_pacman_q(text.as_str()),
                _ => parse_apk_info(text.as_str()),
            };
            (packages, None)
        },
        Err(e) => {
            let message = concat3(name, " failed: ", e.as_str());
            (Vec::new(), Some(CaptureWarning::new("packages", message.as_str())))
        },
    }
}

/// The directories with the repositories of a package manager.
pub fn repo_dirs(manager: PackageManager) -> (out: Vec<&'static str>)
    ensures
        match manager {
            PackageManager::Dpkg => out@.len() == 2 && out@[0]@ == "/etc/apt/sources.list.d"@
                && out@[1]@ == "/etc/apt"@,
            PackageManager::Rpm => out@.len() == 1 && out@[0]@ == "/etc/yum.repos.d"@,
            PackageManager::Pacman => out@.len() == 1 && out@[0]@ == "/etc/pacman.d"@,
            PackageManager::Apk => out@.len() == 1 && out@[0]@ == "/etc/apk"@,
            PackageManager::Unknown => out@.len() == 0,
        },
{
    let mut out: Vec<&'static str> = Vec::new();
    match manager {
        PackageManager::Dpkg => {
            out.push("/etc/apt/sources.list.d");
            out.push("/etc/apt");
        },
        PackageManager::Rpm => {
            out.push("/etc/yum.repos.d");
        },
        PackageManager::Pacman => {
            out.push("/etc/pacman.d");
        },
        PackageManager::Apk => {
            out.push("/etc/apk");
        },
        PackageManager::Unknown => {},
    }
    out
}

/// The directories with the keys of a package manager.
pub fn keyring_dirs(manager: PackageManager) -> (out: Vec<&'static str>)
    ensures
        match manager {
            PackageManager::Dpkg => out@.len() == 2 && out@[0]@ == "/etc/apt/keyrings"@
                && out@[1]@ == "/etc/apt/trusted.gpg.d"@,
            PackageManager::Rpm => out@.len() == 1 && out@[0]@ == "/etc/pki/rpm-gpg"@,
            _ => out@.len() == 0,
        },
{
    let mut out: Vec<&'static str> = Vec::new();
    match manager {
        PackageManager::Dpkg => {
            out.push("/etc/apt/keyrings");
            out.push("/etc/apt/trusted.gpg.d");
        },
        PackageManager::Rpm => {
            out.push("/etc/pki/rpm-gpg");
        },
        _ => {},
    }
    out
}

/// The largest repository file that is kept.
pub const REPO_FILE_MAX: u64 = 1048576;

/// The largest key that is kept.
pub const KEYRING_MAX: u64 = 262144;

/// Whether a file of a directory is kept.
pub fn keeps_file(is_file: bool, len: u64, max: u64) -> (yes: bool)
    ensures
        yes == (is_file && len <= max),
{
    is_file && len <= max
}

/// The tool that lists the packages of each manager, and how much of its files is taken.
pub proof fn managers_have_tools()
    ensures
        command_name(PackageManager::Dpkg) == "dpkg-query"@,
        command_name(PackageManager::Rpm) == "rpm -qa"@,
        command_name(PackageManager::Pacman) == "pacman -Q"@,
        command_name(PackageManager::Apk) == "apk info"@,
        REPO_FILE_MAX == 1024 * 1024,
        KEYRING_MAX == 256 * 1024,
{
}

/// A blank list of packages says nothing of a system.
pub proof fn blank_manifests_are_empty(part: PackageManifest)
    requires
        part.is_blank(),
    ensures
        part.manager == PackageManager::Unknown,
        part.packages@.len() == 0,
        part.repository_files@.len() == 0,
        part.keyrings@.len() == 0,
{
}

} // verus!
