//! What the lines that the tools of a system print are read as.
use crate::capture::bootloader::disk_of;
use crate::capture::bootloader::esp_device;
use crate::capture::bootloader::esp_line;
use crate::capture::bootloader::kernel_name;
use crate::capture::bootloader::root_word;
use crate::capture::bootloader::without_digits;
use crate::capture::disk_layout::gpt_row;
use crate::capture::disk_layout::no_disk;
use crate::capture::disk_layout::number_or_zero;
use crate::capture::disk_layout::partition_type;
use crate::capture::disk_layout::sfdisk_field;
use crate::capture::disk_layout::sgdisk_step;
use crate::capture::disk_layout::slot_type;
use crate::capture::disk_layout::table_kind;
use crate::capture::disk_layout::SfdiskFields;
use crate::capture::disk_layout::SgdiskState;
use crate::capture::disk_layout::TableKind;
use crate::capture::network::bare_line;
use crate::capture::network::devtype;
use crate::capture::network::field_from;
use crate::capture::network::field_number;
use crate::capture::network::field_text;
use crate::capture::network::is_route;
use crate::capture::network::kind_of;
use crate::capture::network::nameserver_of;
use crate::capture::network::number_in;
use crate::capture::network::search_of;
use crate::capture::network::text_in;
use crate::capture::network::RouteEntry;
use crate::capture::packages::apk_line;
use crate::capture::packages::dpkg_line;
use crate::capture::packages::packages_in;
use crate::capture::packages::pacman_line;
use crate::capture::packages::rpm_line;
use crate::capture::packages::PackageFact;
use crate::capture::packages::PackageManager;
use crate::capture::secrets::key_name;
use crate::capture::system::cpu_step;
use crate::capture::system::field_of;
use crate::capture::system::init_of;
use crate::capture::system::is_quote;
use crate::capture::system::memory_line;
use crate::capture::system::memory_of;
use crate::capture::system::mount_line;
use crate::capture::system::named;
use crate::capture::system::release_step;
use crate::capture::system::service_line;
use crate::capture::system::unquoted;
use crate::capture::system::unquoted_back;
use crate::capture::system::unquoted_front;
use crate::capture::system::CpuState;
use crate::capture::system::FilesystemFact;
use crate::paths::counts;
use crate::paths::last_counting;
use crate::paths::last_name;
use crate::primitives::FieldView;
use crate::reading::decimals_have_their_value;
use crate::reading::first_fields;
use crate::reading::is_word;
use crate::reading::lacks_char;
use crate::reading::lone_fields;
use crate::reading::numbers_read_back;
use crate::reading::parts_are_found_first;
use crate::reading::space_is_no_word;
use crate::reading::trimmed_text_comes_back;
use crate::reading::words_come_apart;
use crate::text::after_part;
use crate::text::after_prefix;
use crate::text::all_digits;
use crate::text::decimal;
use crate::text::find_char;
use crate::text::find_char_range;
use crate::text::first_part;
use crate::text::has_prefix;
use crate::text::is_digit;
use crate::text::is_white;
use crate::text::last_part;
use crate::text::lines;
use crate::text::number_upto;
use crate::text::occurs_at;
use crate::text::opt_text;
use crate::text::picked;
use crate::text::split_on;
use crate::text::trim;
use crate::text::words;
use vstd::prelude::*;

verus! {

// --- Tools -----------------------------------------------------------------------------------

/// Whether a text neither begins nor ends with space.
pub open spec fn bare(s: Seq<char>) -> bool {
    s.len() > 0 ==> !is_white(s[0]) && !is_white(s.last())
}

proof fn bare_is_trimmed(s: Seq<char>)
    requires
        bare(s),
    ensures
        trim(s) == s,
{
    let none = Seq::<char>::empty();
    trimmed_text_comes_back(none, s, none);
    assert(none + s + none =~= s);
}

proof fn space_before(s: Seq<char>)
    requires
        bare(s),
    ensures
        trim(seq![' '] + s) == s,
{
    let none = Seq::<char>::empty();
    trimmed_text_comes_back(seq![' '], s, none);
    assert(seq![' '] + s + none =~= seq![' '] + s);
}

proof fn behind_prefix(p: Seq<char>, rest: Seq<char>)
    ensures
        has_prefix(p + rest, p),
        after_prefix(p + rest, p) == Some(rest),
{
    assert((p + rest).take(p.len() as int) =~= p);
    assert((p + rest).skip(p.len() as int) =~= rest);
}

proof fn other_prefix(s: Seq<char>, p: Seq<char>, i: int)
    requires
        0 <= i < p.len(),
        i >= s.len() || s[i] != p[i],
    ensures
        !has_prefix(s, p),
        after_prefix(s, p) is None,
{
    if has_prefix(s, p) {
        assert(s.take(p.len() as int)[i] == s[i]);
    }
}

proof fn words_with_space(w: Seq<char>, rest: Seq<char>)
    requires
        is_word(w),
    ensures
        words(w + seq![' '] + rest) == seq![w] + words(rest),
{
    let tail = seq![' '] + rest;
    assert(w + seq![' '] + rest =~= w + tail);
    words_come_apart(w, tail);
    space_is_no_word(tail);
    assert(tail.drop_first() =~= rest);
}

proof fn last_word(w: Seq<char>)
    requires
        is_word(w),
    ensures
        words(w) == seq![w],
{
    let none = Seq::<char>::empty();
    words_come_apart(w, none);
    space_is_no_word(none);
    assert(w + none =~= w);
    assert(seq![w] + Seq::<Seq<char>>::empty() =~= seq![w]);
}

proof fn last_part_found(s: Seq<char>, p: Seq<char>, i: int, k: int)
    requires
        0 <= k <= i,
        occurs_at(s, p, k),
        forall|j: int| k < j <= i ==> !#[trigger] occurs_at(s, p, j),
    ensures
        last_part(s, p, i) == Some(k),
    decreases i,
{
    if i > k {
        last_part_found(s, p, i - 1, k);
    }
}

/// What is read of one more line stands behind what was read before; a line that says nothing
/// changes nothing.
pub proof fn lines_are_read_in_order<T>(
    list: Seq<Seq<char>>,
    rule: spec_fn(Seq<char>) -> Option<T>,
    line: Seq<char>,
)
    ensures
        picked(Seq::empty(), rule) == Seq::<T>::empty(),
        rule(line) is None ==> picked(list.push(line), rule) == picked(list, rule),
        rule(line) matches Some(x) ==> picked(list.push(line), rule) == picked(list, rule).push(x),
{
    assert(list.push(line).drop_last() =~= list);
}

// --- Packages --------------------------------------------------------------------------------

/// A line of `dpkg-query` has the name, the version and the architecture of a package, and may say
/// how it stands: only installed packages count.
pub proof fn dpkg_lines(n: Seq<char>, v: Seq<char>, a: Seq<char>, status: Seq<char>)
    requires
        lacks_char(n, '\t'),
        lacks_char(v, '\t'),
        lacks_char(a, '\t'),
        lacks_char(status, '\t'),
    ensures
        ({
            let package = PackageFact {
                name: n,
                version: v,
                architecture: Some(a),
                origin: None,
                explicitly_installed: false,
            };
            let line = n + seq!['\t'] + (v + seq!['\t'] + a);
            let told = n + seq!['\t'] + (v + seq!['\t'] + (a + seq!['\t'] + status));
            &&& dpkg_line(line) == Some(package)
            &&& status == "installed"@ ==> dpkg_line(told) == Some(package)
            &&& status != "installed"@ ==> dpkg_line(told) is None
        }),
        dpkg_line(n) is None,
        dpkg_line(n + seq!['\t'] + v) is None,
{
    lone_fields(a, '\t');
    lone_fields(n, '\t');
    lone_fields(v, '\t');
    lone_fields(status, '\t');
    first_fields(v, '\t', a);
    first_fields(n, '\t', v);
    first_fields(n, '\t', v + seq!['\t'] + a);
    first_fields(a, '\t', status);
    first_fields(v, '\t', a + seq!['\t'] + status);
    first_fields(n, '\t', v + seq!['\t'] + (a + seq!['\t'] + status));
    assert(split_on(n + seq!['\t'] + (v + seq!['\t'] + a), '\t') =~= seq![n, v, a]);
    assert(split_on(n + seq!['\t'] + (v + seq!['\t'] + (a + seq!['\t'] + status)), '\t') =~= seq![
        n,
        v,
        a,
        status,
    ]);
    assert(split_on(n + seq!['\t'] + v, '\t') =~= seq![n, v]);
}

/// A line of `rpm` has the name and the version of a package, and may have its architecture.
pub proof fn rpm_lines(n: Seq<char>, v: Seq<char>, a: Seq<char>)
    requires
        lacks_char(n, '\t'),
        lacks_char(v, '\t'),
        lacks_char(a, '\t'),
    ensures
        rpm_line(n + seq!['\t'] + (v + seq!['\t'] + a)) == Some(
            PackageFact {
                name: n,
                version: v,
                architecture: Some(a),
                origin: None,
                explicitly_installed: false,
            },
        ),
        rpm_line(n + seq!['\t'] + v) == Some(
            PackageFact {
                name: n,
                version: v,
                architecture: None,
                origin: None,
                explicitly_installed: false,
            },
        ),
        rpm_line(n) is None,
{
    lone_fields(n, '\t');
    lone_fields(v, '\t');
    lone_fields(a, '\t');
    first_fields(v, '\t', a);
    first_fields(n, '\t', v);
    first_fields(n, '\t', v + seq!['\t'] + a);
    assert(split_on(n + seq!['\t'] + (v + seq!['\t'] + a), '\t') =~= seq![n, v, a]);
    assert(split_on(n + seq!['\t'] + v, '\t') =~= seq![n, v]);
}

/// A line of `pacman` has the name and the version of a package.
pub proof fn pacman_lines(n: Seq<char>, v: Seq<char>)
    requires
        is_word(n),
        is_word(v),
    ensures
        pacman_line(n + seq![' '] + v) == Some(
            PackageFact {
                name: n,
                version: v,
                architecture: None,
                origin: None,
                explicitly_installed: false,
            },
        ),
        pacman_line(n) is None,
{
    last_word(n);
    last_word(v);
    words_with_space(n, v);
}

/// A line of `apk` has the name of a package, a hyphen, and the version with its revision.
pub proof fn apk_lines(n: Seq<char>, v: Seq<char>, revision: nat)
    requires
        is_word(n),
        is_word(v),
        lacks_char(v, '-'),
    ensures
        apk_line(n + seq!['-'] + (v + seq!['-', 'r'] + decimal(revision))) == Some(
            PackageFact {
                name: n,
                version: v + seq!['-', 'r'] + decimal(revision),
                architecture: None,
                origin: None,
                explicitly_installed: false,
            },
        ),
{
    let d = decimal(revision);
    decimals_have_their_value(revision);
    reveal_strlit("-r");
    reveal_strlit("-");
    assert("-r"@ =~= seq!['-', 'r']);
    assert("-"@ =~= seq!['-']);
    let version = v + seq!['-', 'r'] + d;
    let t = n + seq!['-'] + version;
    assert(t[0] == n[0]);
    assert(t.last() == d.last());
    assert(!is_white(t.last())) by {
        assert('0' <= d[d.len() - 1] <= '9');
    }
    bare_is_trimmed(t);
    let r: int = n.len() as int + 1 + v.len() as int;
    assert(t.subrange(r, r + 2) =~= seq!['-', 'r']);
    assert forall|j: int| r < j <= t.len() implies !#[trigger] occurs_at(t, "-r"@, j) by {
        if occurs_at(t, "-r"@, j) {
            assert(t.subrange(j, j + 2)[0] == t[j]);
            if j == r + 1 {
                assert(t[j] == 'r');
            } else {
                assert(t[j] == d[j - r - 2]);
            }
        }
    }
    last_part_found(t, "-r"@, t.len() as int, r);
    assert(t.skip(r + 2) =~= d);
    assert(all_digits(d));
    let front = t.take(r);
    assert(front =~= n + seq!['-'] + v);
    let dash = n.len() as int;
    assert(front.subrange(dash, dash + 1) =~= seq!['-']);
    assert forall|j: int| dash < j <= front.len() implies !#[trigger] occurs_at(front, "-"@, j) by {
        if occurs_at(front, "-"@, j) {
            assert(front.subrange(j, j + 1)[0] == front[j]);
            assert(front[j] == v[j - dash - 1]);
        }
    }
    last_part_found(front, "-"@, front.len() as int, dash);
    assert(front.take(dash) =~= n);
    assert(t.skip(dash + 1) =~= version);
}

/// Each package manager's output is read by its own rules; where none is known there are no
/// packages.
pub proof fn managers_are_read_by_their_rules(text: Seq<char>)
    ensures
        packages_in(PackageManager::Dpkg, text) == picked(
            lines(text),
            |line: Seq<char>| dpkg_line(line),
        ),
        packages_in(PackageManager::Rpm, text) == picked(
            lines(text),
            |line: Seq<char>| rpm_line(line),
        ),
        packages_in(PackageManager::Pacman, text) == picked(
            lines(text),
            |line: Seq<char>| pacman_line(line),
        ),
        packages_in(PackageManager::Apk, text) == picked(
            lines(text),
            |line: Seq<char>| apk_line(line),
        ),
        packages_in(PackageManager::Unknown, text).len() == 0,
{
    assert(crate::capture::packages::dpkg_rule() =~= (|line: Seq<char>| dpkg_line(line)));
    assert(crate::capture::packages::rpm_rule() =~= (|line: Seq<char>| rpm_line(line)));
    assert(crate::capture::packages::pacman_rule() =~= (|line: Seq<char>| pacman_line(line)));
    assert(crate::capture::packages::apk_rule() =~= (|line: Seq<char>| apk_line(line)));
}

// --- The system ------------------------------------------------------------------------------

/// A line of the mount table has the device, the mountpoint, the type and the options of a file
/// system, and perhaps more.
pub proof fn mount_lines(
    device: Seq<char>,
    place: Seq<char>,
    kind: Seq<char>,
    options: Seq<char>,
    rest: Seq<char>,
)
    requires
        is_word(device),
        is_word(place),
        is_word(kind),
        is_word(options),
    ensures
        mount_line(
            device + seq![' '] + (place + seq![' '] + (kind + seq![' '] + (options + seq![' ']
                + rest))),
        ) == Some(
            FilesystemFact {
                device,
                mountpoint: Some(place),
                fstype: kind,
                uuid: None,
                label: None,
                options: Some(options),
            },
        ),
        mount_line(device + seq![' '] + place) is None,
{
    let a = options + seq![' '] + rest;
    let b = kind + seq![' '] + a;
    let c = place + seq![' '] + b;
    words_with_space(options, rest);
    words_with_space(kind, a);
    words_with_space(place, b);
    words_with_space(device, c);
    last_word(place);
    words_with_space(device, place);
    let w = words(device + seq![' '] + c);
    assert(w =~= seq![device, place, kind, options] + words(rest));
    assert(words(device + seq![' '] + place) =~= seq![device, place]);
}

/// A line of `systemctl` has the name of a service and its state.
pub proof fn service_lines(name: Seq<char>, state: Seq<char>, rest: Seq<char>)
    requires
        is_word(name),
        is_word(state),
    ensures
        service_line(name + seq![' '] + (state + seq![' '] + rest)) == Some((name, state)),
        service_line(name) is None,
{
    words_with_space(state, rest);
    words_with_space(name, state + seq![' '] + rest);
    last_word(name);
    let w = words(name + seq![' '] + (state + seq![' '] + rest));
    assert(w =~= seq![name, state] + words(rest));
}

/// The memory of a machine is given in units of 1024 bytes.
pub proof fn memory_is_in_kibibytes(n: nat, rest: Seq<char>)
    requires
        n * 1024 <= u64::MAX,
    ensures
        memory_line(seq![' '] + (decimal(n) + seq![' '] + rest)) == n * 1024,
        memory_of(
            seq!["MemTotal:"@ + (seq![' '] + (decimal(n) + seq![' '] + rest))],
            0,
        ) == n * 1024,
{
    let d = decimal(n);
    decimals_have_their_value(n);
    assert(is_word(d)) by {
        assert forall|i: int| 0 <= i < d.len() implies !is_white(#[trigger] d[i]) by {
            assert('0' <= d[i] <= '9');
        }
    }
    let s = seq![' '] + (d + seq![' '] + rest);
    space_is_no_word(s);
    assert(s.drop_first() =~= d + seq![' '] + rest);
    words_with_space(d, rest);
    assert(words(s)[0] == d);
    numbers_read_back(n, u64::MAX as nat);
    behind_prefix("MemTotal:"@, s);
}

proof fn front_quotes_come_off(q: char, s: Seq<char>)
    requires
        is_quote(q),
        s.len() > 0 ==> !is_quote(s[0]),
    ensures
        unquoted_front(seq![q] + s) == s,
        unquoted_front(s) == s,
{
    reveal_with_fuel(unquoted_front, 3);
    assert((seq![q] + s)[0] == q);
    assert((seq![q] + s).drop_first() =~= s);
}

proof fn back_quotes_come_off(q: char, s: Seq<char>)
    requires
        is_quote(q),
        s.len() > 0 ==> !is_quote(s.last()),
    ensures
        unquoted_back(s + seq![q]) == s,
        unquoted_back(s) == s,
{
    reveal_with_fuel(unquoted_back, 3);
    assert((s + seq![q]).last() == q);
    assert((s + seq![q]).drop_last() =~= s);
}

/// Quotes around a value do not belong to it.
pub proof fn quotes_do_not_count(q: char, s: Seq<char>)
    requires
        q == '"' || q == '\'',
        s.len() > 0,
        s[0] != '"' && s[0] != '\'',
        s.last() != '"' && s.last() != '\'',
    ensures
        unquoted(s) == s,
        unquoted(seq![q] + s + seq![q]) == s,
{
    let tail = s + seq![q];
    assert(tail[0] == s[0]);
    front_quotes_come_off(q, tail);
    front_quotes_come_off(q, s);
    back_quotes_come_off(q, s);
    assert(seq![q] + s + seq![q] =~= seq![q] + tail);
}

/// The release file names the distribution under `ID` and its version under `VERSION_ID`; other
/// lines say nothing.
pub proof fn release_lines(st: (Seq<char>, Seq<char>), value: Seq<char>)
    requires
        value.len() > 0,
        !is_white(value.last()),
        value[0] != '"' && value[0] != '\'',
        value.last() != '"' && value.last() != '\'',
    ensures
        release_step(st, "ID="@ + value) == (value, st.1),
        release_step(st, "VERSION_ID="@ + value) == (st.0, value),
        release_step(st, "NAME="@ + value) == st,
        release_step(st, "ID_LIKE="@ + value) == st,
        release_step(st, "VERSION="@ + value) == st,
{
    reveal_strlit("ID=");
    reveal_strlit("VERSION_ID=");
    reveal_strlit("NAME=");
    reveal_strlit("ID_LIKE=");
    reveal_strlit("VERSION=");
    quotes_do_not_count('"', value);
    let a = "ID="@ + value;
    let b = "VERSION_ID="@ + value;
    let c = "NAME="@ + value;
    let d = "ID_LIKE="@ + value;
    let e = "VERSION="@ + value;
    assert(a.last() == value.last() && b.last() == value.last() && c.last() == value.last());
    assert(d.last() == value.last() && e.last() == value.last());
    bare_is_trimmed(a);
    bare_is_trimmed(b);
    bare_is_trimmed(c);
    bare_is_trimmed(d);
    bare_is_trimmed(e);
    behind_prefix("ID="@, value);
    behind_prefix("VERSION_ID="@, value);
    other_prefix(b, "ID="@, 0);
    other_prefix(c, "ID="@, 0);
    other_prefix(c, "VERSION_ID="@, 0);
    other_prefix(d, "ID="@, 2);
    other_prefix(d, "VERSION_ID="@, 0);
    other_prefix(e, "ID="@, 0);
    other_prefix(e, "VERSION_ID="@, 7);
}

/// Where systemd runs it is the init system; else the first process is, and its usual name stands
/// for System V.
pub proof fn init_systems(comm: Option<Seq<char>>)
    ensures
        init_of(true, comm) == "systemd"@,
        comm is None ==> init_of(false, comm) == "unknown"@,
        comm is Some && trim(comm->0) == "init"@ ==> init_of(false, comm) == "sysvinit"@,
        comm is Some && trim(comm->0) != "init"@ ==> init_of(false, comm) == trim(comm->0),
        comm is None ==> named(comm) is None,
        comm is Some && trim(comm->0).len() == 0 ==> named(comm) is None,
        comm is Some && trim(comm->0).len() > 0 ==> named(comm) == Some(trim(comm->0)),
{
}

/// The value of a line of the processor list stands behind the colon.
pub proof fn processor_values(label: Seq<char>, value: Seq<char>)
    requires
        lacks_char(label, ':'),
        lacks_char(value, ':'),
        bare(value),
    ensures
        field_of(label + seq![':'] + (seq![' '] + value)) == value,
{
    let v = seq![' '] + value;
    assert(lacks_char(v, ':'));
    first_fields(label, ':', v);
    lone_fields(v, ':');
    assert(split_on(label + seq![':'] + v, ':')[1] == v);
    space_before(value);
}

/// Every `processor` line is a logical processor, every new `physical id` a socket. The vendor and
/// the model are those of the first processor.
pub proof fn processors_are_counted(st: CpuState, rest: Seq<char>)
    ensures
        cpu_step(st, "processor"@ + rest) == (CpuState { logical: st.logical + 1, ..st }),
        st.vendor.len() == 0 ==> cpu_step(st, "vendor_id"@ + rest) == (CpuState {
            vendor: field_of(rest),
            ..st
        }),
        st.vendor.len() > 0 ==> cpu_step(st, "vendor_id"@ + rest) == st,
        st.model.len() == 0 ==> cpu_step(st, "model name"@ + rest) == (CpuState {
            model: field_of(rest),
            ..st
        }),
        st.model.len() > 0 ==> cpu_step(st, "model name"@ + rest) == st,
        ({
            let id = number_upto(field_of(rest), u32::MAX as nat);
            let after = cpu_step(st, "physical id"@ + rest);
            &&& id is None || st.sockets.contains(id->0 as u32) ==> after == st
            &&& id is Some && !st.sockets.contains(id->0 as u32) ==> after == (CpuState {
                sockets: st.sockets.push(id->0 as u32),
                ..st
            })
        }),
        st.flags.len() == 0 ==> cpu_step(st, "flags"@ + rest) == (CpuState {
            flags: words(field_of(rest)),
            ..st
        }),
        st.flags.len() > 0 ==> cpu_step(st, "flags"@ + rest) == st,
{
    reveal_strlit("processor");
    reveal_strlit("vendor_id");
    reveal_strlit("model name");
    reveal_strlit("physical id");
    reveal_strlit("flags");
    let a = "processor"@ + rest;
    let b = "vendor_id"@ + rest;
    let c = "model name"@ + rest;
    let d = "physical id"@ + rest;
    let e = "flags"@ + rest;
    behind_prefix("processor"@, rest);
    behind_prefix("vendor_id"@, rest);
    behind_prefix("model name"@, rest);
    behind_prefix("physical id"@, rest);
    behind_prefix("flags"@, rest);
    other_prefix(a, "vendor_id"@, 0);
    other_prefix(a, "model name"@, 0);
    other_prefix(a, "physical id"@, 1);
    other_prefix(c, "vendor_id"@, 0);
    other_prefix(d, "vendor_id"@, 0);
    other_prefix(d, "model name"@, 0);
    other_prefix(e, "vendor_id"@, 0);
    other_prefix(e, "model name"@, 0);
    other_prefix(e, "physical id"@, 0);
    other_prefix(e, "processor"@, 0);
}

// --- The network -----------------------------------------------------------------------------

proof fn no_comment(line: Seq<char>)
    requires
        lacks_char(line, '#'),
        bare(line),
    ensures
        bare_line(line) == line,
{
    find_char_range(line, '#');
    assert(line.take(line.len() as int) =~= line);
    bare_is_trimmed(line);
}

/// A `nameserver` line names a server; what stands behind a number sign says nothing.
pub proof fn nameserver_lines(server: Seq<char>, comment: Seq<char>)
    requires
        server.len() > 0,
        bare(server),
        lacks_char(server, '#'),
    ensures
        nameserver_of("nameserver"@ + (seq![' '] + server)) == Some(server),
        nameserver_of("nameserver"@ + (seq![' '] + server) + seq!['#'] + comment) == Some(server),
        nameserver_of(seq!['#'] + comment) is None,
        search_of("nameserver"@ + (seq![' '] + server)).len() == 0,
{
    reveal_strlit("nameserver");
    let rest = seq![' '] + server;
    let line = "nameserver"@ + rest;
    assert(lacks_char(line, '#')) by {
        assert forall|i: int| 0 <= i < line.len() implies #[trigger] line[i] != '#' by {
            if i >= 11 {
                assert(line[i] == server[i - 11]);
            }
        }
    }
    assert(line.last() == server.last());
    no_comment(line);
    behind_prefix("nameserver"@, rest);
    space_before(server);
    let told = line + seq!['#'] + comment;
    first_fields(line, '#', comment);
    find_char_range(told, '#');
    assert(told.take(line.len() as int) =~= line);
    assert(told[line.len() as int] == '#');
    assert(find_char(told, '#') == line.len()) by {
        let k = find_char(told, '#');
        if k < line.len() {
            assert(told[k] == line[k]);
        }
    }
    bare_is_trimmed(line);
    let none = Seq::<char>::empty();
    let note = seq!['#'] + comment;
    find_char_range(note, '#');
    assert(note[0] == '#');
    assert(note.take(0) =~= none);
    bare_is_trimmed(none);
    other_prefix(none, "nameserver"@, 0);
}

proof fn search_line_parts(domains: Seq<char>)
    requires
        domains.len() > 0,
        bare(domains),
        lacks_char(domains, '#'),
    ensures
        ({
            let line = "search"@ + (seq![' '] + domains);
            &&& bare_line(line) == line
            &&& after_prefix(line, "search"@) == Some(seq![' '] + domains)
            &&& after_prefix(line, "nameserver"@) is None
        }),
{
    reveal_strlit("search");
    reveal_strlit("nameserver");
    let rest = seq![' '] + domains;
    let line = "search"@ + rest;
    assert(lacks_char(line, '#')) by {
        assert forall|i: int| 0 <= i < line.len() implies #[trigger] line[i] != '#' by {
            if i >= 7 {
                assert(line[i] == domains[i - 7]);
            }
        }
    }
    assert(line.last() == domains.last());
    no_comment(line);
    behind_prefix("search"@, rest);
    other_prefix(line, "nameserver"@, 0);
}

/// A `search` line names domains, in order.
pub proof fn search_lines(domains: Seq<char>)
    requires
        domains.len() > 0,
        bare(domains),
        lacks_char(domains, '#'),
    ensures
        search_of("search"@ + (seq![' '] + domains)) == words(domains),
        nameserver_of("search"@ + (seq![' '] + domains)) is None,
{
    let rest = seq![' '] + domains;
    search_line_parts(domains);
    assert(words(rest) == words(domains)) by {
        space_is_no_word(rest);
        assert(rest.drop_first() =~= domains);
    }
}

/// The kind of an interface is the one that the system gives; else the name `lo` is the loopback,
/// and others are Ethernet.
pub proof fn interface_kinds(name: Seq<char>, uevent: Option<Seq<char>>, kind: Seq<char>)
    ensures
        uevent is None && name == "lo"@ ==> kind_of(name, uevent) == "loopback"@,
        uevent is None && name != "lo"@ ==> kind_of(name, uevent) == "ethernet"@,
        uevent is Some && devtype(lines(uevent->0), 0) == Some(kind) ==> kind_of(name, uevent)
            == kind,
        devtype(seq!["DEVTYPE="@ + kind], 0) == Some(kind),
{
    behind_prefix("DEVTYPE="@, kind);
}

/// A number in a file of the system is read without the space around it; where it is none, or
/// there is no file, the usual one is taken.
pub proof fn numbers_in_files(n: nat, limit: nat, usual: nat)
    requires
        n <= limit,
    ensures
        number_in(Some(decimal(n)), limit, usual) == n,
        number_in(Some(decimal(n) + seq!['\n']), limit, usual) == n,
        number_in(None, limit, usual) == usual,
        text_in(None).len() == 0,
{
    let d = decimal(n);
    decimals_have_their_value(n);
    assert('0' <= d[0] <= '9' && '0' <= d[d.len() - 1] <= '9');
    bare_is_trimmed(d);
    let none = Seq::<char>::empty();
    trimmed_text_comes_back(none, d, seq!['\n']);
    assert(none + d + seq!['\n'] =~= d + seq!['\n']);
    numbers_read_back(n, limit);
}

proof fn first_field(record: Seq<FieldView>, name: Seq<char>, from: int, k: int)
    requires
        0 <= from <= k < record.len(),
        record[k].0 == name,
        forall|j: int| from <= j < k ==> (#[trigger] record[j]).0 != name,
    ensures
        field_from(record, name, from) == Some((record[k].1, record[k].2)),
    decreases k - from,
{
    if from < k {
        first_field(record, name, from + 1, k);
    }
}

/// A route has the destination, gateway, device and metric that its fields of these names give, and
/// is of the sixth family of the protocol exactly where its field says `inet6`.
pub proof fn routes_have_their_fields(route: RouteEntry, record: Seq<FieldView>, k: int)
    requires
        is_route(route, record),
        0 <= k < record.len(),
        forall|j: int| 0 <= j < k ==> (#[trigger] record[j]).0 != record[k].0,
    ensures
        record[k].0 == "dst"@ && record[k].1 is Some ==> route.dst@ == record[k].1->0,
        record[k].0 == "gateway"@ ==> opt_text(route.gw) == record[k].1,
        record[k].0 == "dev"@ && record[k].1 is Some ==> route.dev@ == record[k].1->0,
        record[k].0 == "metric"@ && record[k].2 is None ==> route.metric is None,
        record[k].0 == "metric"@ && record[k].2 is Some && record[k].2->0 <= u32::MAX
            ==> route.metric == Some(record[k].2->0 as u32),
        record[k].0 == "family"@ && record[k].1 == Some("inet6"@) ==> route.family == 10,
        record[k].0 == "family"@ && record[k].1 != Some("inet6"@) ==> route.family == 2,
{
    first_field(record, record[k].0, 0, k);
}

/// A route without a field lacks what that field would give.
pub proof fn missing_fields_are_empty(route: RouteEntry)
    requires
        is_route(route, Seq::empty()),
    ensures
        route.dst@.len() == 0,
        route.gw is None,
        route.dev@.len() == 0,
        route.metric is None,
        route.family == 2,
{
}

// --- Disks -----------------------------------------------------------------------------------

/// A disk has a partition table where its first sector ends with the boot signature; it is a GPT
/// where one of the four slots is of the protective type.
pub proof fn first_sectors(sector: Seq<u8>)
    ensures
        sector.len() < 512 ==> table_kind(sector) == TableKind::NoTable,
        sector.len() >= 512 && !(sector[510] == 0x55 && sector[511] == 0xaa) ==> table_kind(sector)
            == TableKind::NoTable,
        sector.len() >= 512 && sector[510] == 0x55 && sector[511] == 0xaa ==> (table_kind(sector)
            == TableKind::Gpt <==> sector[450] == 0xee || sector[466] == 0xee || sector[482] == 0xee
            || sector[498] == 0xee),
        sector.len() >= 512 && sector[510] == 0x55 && sector[511] == 0xaa ==> table_kind(sector)
            != TableKind::NoTable,
{
    assert(slot_type(sector, 0) == sector[450]);
    assert(slot_type(sector, 1) == sector[466]);
    assert(slot_type(sector, 2) == sector[482]);
    assert(slot_type(sector, 3) == sector[498]);
}

/// Loop devices, RAM disks, mapped devices and optical drives are no disks; the disks of SCSI, NVMe
/// and virtual machines are.
pub proof fn disks_by_name(rest: Seq<char>)
    ensures
        no_disk("loop"@ + rest),
        no_disk("ram"@ + rest),
        no_disk("dm-"@ + rest),
        no_disk("zram"@ + rest),
        no_disk("sr"@ + rest),
        !no_disk("sd"@ + rest),
        !no_disk("nvme"@ + rest),
        !no_disk("vd"@ + rest),
        !no_disk("mmcblk"@ + rest),
{
    reveal_strlit("loop");
    reveal_strlit("ram");
    reveal_strlit("dm-");
    reveal_strlit("zram");
    reveal_strlit("sr");
    reveal_strlit("sd");
    reveal_strlit("nvme");
    reveal_strlit("vd");
    reveal_strlit("mmcblk");
    behind_prefix("loop"@, rest);
    behind_prefix("ram"@, rest);
    behind_prefix("dm-"@, rest);
    behind_prefix("zram"@, rest);
    behind_prefix("sr"@, rest);
    let a = "sd"@ + rest;
    let b = "nvme"@ + rest;
    let c = "vd"@ + rest;
    let d = "mmcblk"@ + rest;
    other_prefix(a, "loop"@, 0);
    other_prefix(a, "ram"@, 0);
    other_prefix(a, "dm-"@, 0);
    other_prefix(a, "zram"@, 0);
    other_prefix(a, "sr"@, 1);
    other_prefix(b, "loop"@, 0);
    other_prefix(b, "ram"@, 0);
    other_prefix(b, "dm-"@, 0);
    other_prefix(b, "zram"@, 0);
    other_prefix(b, "sr"@, 0);
    other_prefix(c, "loop"@, 0);
    other_prefix(c, "ram"@, 0);
    other_prefix(c, "dm-"@, 0);
    other_prefix(c, "zram"@, 0);
    other_prefix(c, "sr"@, 0);
    other_prefix(d, "loop"@, 0);
    other_prefix(d, "ram"@, 0);
    other_prefix(d, "dm-"@, 0);
    other_prefix(d, "zram"@, 0);
    other_prefix(d, "sr"@, 0);
}

proof fn digits_are_words(n: nat)
    ensures
        is_word(decimal(n)),
        bare(decimal(n)),
{
    let d = decimal(n);
    decimals_have_their_value(n);
    assert forall|i: int| 0 <= i < d.len() implies !is_white(#[trigger] d[i]) by {
        assert('0' <= d[i] <= '9');
    }
}

/// A row of the partition table that `sgdisk` prints: the number, the first and the last sector,
/// the size and its unit, the code, and the name.
pub proof fn gpt_rows(
    number: nat,
    first: nat,
    last: nat,
    size: Seq<char>,
    unit: Seq<char>,
    code: Seq<char>,
    name: Seq<char>,
)
    requires
        number <= u32::MAX,
        first <= u64::MAX,
        last <= u64::MAX,
        is_word(size),
        is_word(unit),
        is_word(code),
        is_word(name),
    ensures
        ({
            let tail = size + seq![' '] + (unit + seq![' '] + (code + seq![' '] + name));
            let row = decimal(number) + seq![' '] + (decimal(first) + seq![' '] + (decimal(last)
                + seq![' '] + tail));
            &&& gpt_row(row) matches Some(p)
            &&& p.number == number
            &&& p.start_lba == first
            &&& p.end_lba == last
            &&& p.name == name
        }),
{
    let c = code + seq![' '] + name;
    let u = unit + seq![' '] + c;
    let tail = size + seq![' '] + u;
    let l = decimal(last) + seq![' '] + tail;
    let f = decimal(first) + seq![' '] + l;
    digits_are_words(number);
    digits_are_words(first);
    digits_are_words(last);
    last_word(name);
    words_with_space(code, name);
    words_with_space(unit, c);
    words_with_space(size, u);
    words_with_space(decimal(last), tail);
    words_with_space(decimal(first), l);
    words_with_space(decimal(number), f);
    let w = words(decimal(number) + seq![' '] + f);
    assert(w =~= seq![decimal(number), decimal(first), decimal(last), size, unit, code, name]);
    numbers_read_back(number, u32::MAX as nat);
    numbers_read_back(first, u64::MAX as nat);
    numbers_read_back(last, u64::MAX as nat);
    assert(w.skip(6) =~= seq![name]);
    assert(crate::text::join_with(seq![name], " "@) == name);
}

/// The identifier of a disk stands behind its label, wherever it comes. Rows count only behind the
/// heading of the table.
pub proof fn sgdisk_lines(st: SgdiskState, guid: Seq<char>, line: Seq<char>)
    requires
        guid.len() > 0,
        bare(guid),
    ensures
        sgdisk_step(st, "Disk identifier (GUID):"@ + (seq![' '] + guid)) == (SgdiskState {
            guid,
            ..st
        }),
        !st.in_table ==> sgdisk_step(st, line).partitions == st.partitions,
{
    reveal_strlit("Disk identifier (GUID):");
    let rest = seq![' '] + guid;
    let row = "Disk identifier (GUID):"@ + rest;
    assert(row.last() == guid.last());
    bare_is_trimmed(row);
    behind_prefix("Disk identifier (GUID):"@, rest);
    space_before(guid);
}

proof fn at_the_front(p: Seq<char>, rest: Seq<char>)
    requires
        p.len() > 0,
    ensures
        after_part(p + rest, p) == Some(rest),
{
    let s = p + rest;
    assert(s.subrange(0, p.len() as int) =~= p);
    assert(occurs_at(s, p, 0));
    assert(s.skip(p.len() as int) =~= rest);
}

proof fn no_equals_no_part(s: Seq<char>, p: Seq<char>)
    requires
        p.len() > 0,
        p.last() == '=',
        lacks_char(s, '='),
    ensures
        after_part(s, p) is None,
{
    parts_are_found_first(s, p, 0);
    if let Some(k) = first_part(s, p, 0) {
        assert(s.subrange(k, k + p.len())[p.len() - 1] == s[k + p.len() - 1]);
    }
}

proof fn one_equals_one_part(front: Seq<char>, rest: Seq<char>, p: Seq<char>, i: int)
    requires
        lacks_char(front, '='),
        lacks_char(rest, '='),
        p.len() > 0,
        p.last() == '=',
        1 <= i < p.len(),
        front.len() < i || front[front.len() - i] != p[p.len() - 1 - i],
    ensures
        after_part(front + seq!['='] + rest, p) is None,
{
    let s = front + seq!['='] + rest;
    parts_are_found_first(s, p, 0);
    if let Some(k) = first_part(s, p, 0) {
        let part = s.subrange(k, k + p.len());
        let e = k + p.len() - 1;
        assert(part[p.len() - 1] == s[e]);
        assert(e == front.len()) by {
            if e < front.len() {
                assert(s[e] == front[e]);
            } else if e > front.len() {
                assert(s[e] == rest[e - front.len() - 1]);
            }
        }
        assert(part[p.len() - 1 - i] == s[e - i]);
        if front.len() >= i {
            assert(s[e - i] == front[front.len() - i]);
        }
    }
}

/// A field of a line of `sfdisk` gives the start or the size in sectors, or the boot flag, and
/// leaves the others as they are.
pub proof fn sfdisk_field_lines(f: SfdiskFields, n: nat)
    requires
        n <= u64::MAX,
    ensures
        sfdisk_field(f, "start="@ + (seq![' '] + decimal(n))) == (SfdiskFields {
            start: n as u64,
            ..f
        }),
        sfdisk_field(f, "size="@ + (seq![' '] + decimal(n))) == (SfdiskFields {
            size: n as u64,
            ..f
        }),
        sfdisk_field(f, "bootable"@) == (SfdiskFields { bootable: true, ..f }),
{
    reveal_strlit("start=");
    reveal_strlit("size=");
    reveal_strlit("type=");
    reveal_strlit("bootable");
    let d = decimal(n);
    digits_are_words(n);
    decimals_have_their_value(n);
    numbers_read_back(n, u64::MAX as nat);
    let rest = seq![' '] + d;
    space_before(d);
    let a = "start="@ + rest;
    let b = "size="@ + rest;
    assert(a.last() == d.last() && b.last() == d.last());
    bare_is_trimmed(a);
    bare_is_trimmed(b);
    at_the_front("start="@, rest);
    at_the_front("size="@, rest);
    let front = seq!['s', 'i', 'z', 'e'];
    assert(b =~= front + seq!['='] + rest);
    assert(lacks_char(rest, '=')) by {
        assert forall|i: int| 0 <= i < rest.len() implies #[trigger] rest[i] != '=' by {
            if i > 0 {
                assert(rest[i] == d[i - 1]);
                assert('0' <= d[i - 1] <= '9');
            }
        }
    }
    one_equals_one_part(front, rest, "start="@, 1);
    bare_is_trimmed("bootable"@);
    no_equals_no_part("bootable"@, "start="@);
    no_equals_no_part("bootable"@, "size="@);
    no_equals_no_part("bootable"@, "type="@);
}

/// The type of a partition stands behind its label; it is a byte in hexadecimal digits.
pub proof fn sfdisk_type_fields(f: SfdiskFields, value: Seq<char>)
    requires
        value.len() > 0,
        bare(value),
        lacks_char(value, '='),
    ensures
        sfdisk_field(f, "type="@ + value) == (SfdiskFields { kind: partition_type(value), ..f }),
        partition_type(seq!['8', '3']) == 0x83,
        partition_type(seq!['e', 'e']) == 0xee,
        partition_type(seq!['E', 'F']) == 0xef,
{
    reveal_strlit("start=");
    reveal_strlit("size=");
    reveal_strlit("type=");
    let line = "type="@ + value;
    assert(line.last() == value.last());
    bare_is_trimmed(line);
    bare_is_trimmed(value);
    at_the_front("type="@, value);
    let front = seq!['t', 'y', 'p', 'e'];
    assert(line =~= front + seq!['='] + value);
    one_equals_one_part(front, value, "start="@, 1);
    one_equals_one_part(front, value, "size="@, 2);
    reveal_with_fuel(crate::text::hex_number, 3);
    let a = seq!['8', '3'];
    let b = seq!['e', 'e'];
    let c = seq!['E', 'F'];
    assert(a.drop_last() =~= seq!['8'] && seq!['8'].drop_last() =~= Seq::<char>::empty());
    assert(b.drop_last() =~= seq!['e'] && seq!['e'].drop_last() =~= Seq::<char>::empty());
    assert(c.drop_last() =~= seq!['E'] && seq!['E'].drop_last() =~= Seq::<char>::empty());
}

// --- Booting ---------------------------------------------------------------------------------

/// Kernels, their RAM disks and their symbol maps are files of a kernel.
pub proof fn kernel_files(rest: Seq<char>)
    ensures
        kernel_name("vmlinuz"@ + rest),
        kernel_name("initramfs"@ + rest),
        kernel_name("initrd"@ + rest),
        kernel_name("System.map"@ + rest),
        !kernel_name("grub"@ + rest),
        key_name("ssh_host_"@ + rest),
        key_name("moduli"@),
        !key_name("ssh_config"@),
{
    reveal_strlit("vmlinuz");
    reveal_strlit("initramfs");
    reveal_strlit("initrd");
    reveal_strlit("System.map");
    reveal_strlit("grub");
    reveal_strlit("ssh_host_");
    reveal_strlit("moduli");
    reveal_strlit("ssh_config");
    behind_prefix("vmlinuz"@, rest);
    behind_prefix("initramfs"@, rest);
    behind_prefix("initrd"@, rest);
    behind_prefix("System.map"@, rest);
    behind_prefix("ssh_host_"@, rest);
    let g = "grub"@ + rest;
    other_prefix(g, "vmlinuz"@, 0);
    other_prefix(g, "initramfs"@, 0);
    other_prefix(g, "initrd"@, 0);
    other_prefix(g, "System.map"@, 0);
    other_prefix("ssh_config"@, "ssh_host_"@, 4);
}

/// The system partition is the device that is mounted at one of its two places.
pub proof fn system_partitions(device: Seq<char>, rest: Seq<char>, other: Seq<char>)
    requires
        is_word(device),
        is_word(rest),
        is_word(other),
        other != "/boot/efi"@,
        other != "/efi"@,
    ensures
        ({
            let line = device + seq![' '] + ("/boot/efi"@ + seq![' '] + rest);
            let short = device + seq![' '] + ("/efi"@ + seq![' '] + rest);
            let no = device + seq![' '] + (other + seq![' '] + rest);
            &&& esp_line(line)
            &&& esp_device(seq![line], 0) == device
            &&& esp_device(seq![short], 0) == device
            &&& !esp_line(no)
            &&& esp_device(seq![no, line], 0) == device
            &&& esp_device(seq![no], 0).len() == 0
        }),
{
    reveal_strlit("/boot/efi");
    reveal_strlit("/efi");
    let a = "/boot/efi"@ + seq![' '] + rest;
    let b = "/efi"@ + seq![' '] + rest;
    let c = other + seq![' '] + rest;
    last_word(rest);
    assert(is_word("/boot/efi"@));
    assert(is_word("/efi"@));
    words_with_space("/boot/efi"@, rest);
    words_with_space("/efi"@, rest);
    words_with_space(other, rest);
    words_with_space(device, a);
    words_with_space(device, b);
    words_with_space(device, c);
    assert(words(device + seq![' '] + a) =~= seq![device, "/boot/efi"@, rest]);
    assert(words(device + seq![' '] + b) =~= seq![device, "/efi"@, rest]);
    assert(words(device + seq![' '] + c) =~= seq![device, other, rest]);
    reveal_with_fuel(esp_device, 3);
}

/// The root device of the kernel is the first that its command line names.
pub proof fn root_devices(list: Seq<Seq<char>>, k: int, device: Seq<char>)
    requires
        0 <= k < list.len(),
        list[k] == "root="@ + device,
        forall|j: int| 0 <= j < k ==> !has_prefix(#[trigger] list[j], "root="@),
    ensures
        root_word(list, 0) == Some(device),
{
    behind_prefix("root="@, device);
    root_found(list, 0, k, device);
}

proof fn root_found(list: Seq<Seq<char>>, from: int, k: int, device: Seq<char>)
    requires
        0 <= from <= k < list.len(),
        after_prefix(list[k], "root="@) == Some(device),
        forall|j: int| from <= j < k ==> !has_prefix(#[trigger] list[j], "root="@),
    ensures
        root_word(list, from) == Some(device),
    decreases k - from,
{
    if from < k {
        root_found(list, from + 1, k, device);
    }
}

proof fn digits_come_off(name: Seq<char>, digits: Seq<char>)
    requires
        name.len() > 0,
        !is_digit(name.last()),
        all_digits(digits),
    ensures
        without_digits(name + digits) == name,
    decreases digits.len(),
{
    let s = name + digits;
    if digits.len() > 0 {
        assert(s.last() == digits.last());
        assert(is_digit(digits[digits.len() - 1]));
        assert(s.drop_last() =~= name + digits.drop_last());
        assert forall|i: int| 0 <= i < digits.drop_last().len() implies '0'
            <= #[trigger] digits.drop_last()[i] <= '9' by {
            assert(digits.drop_last()[i] == digits[i]);
        }
        digits_come_off(name, digits.drop_last());
    } else {
        assert(s =~= name);
    }
}

proof fn device_name(name: Seq<char>)
    requires
        lacks_char(name, '/'),
        name.len() > 2,
    ensures
        last_name("/dev/"@ + name) == Some(name),
{
    reveal_strlit("/dev/");
    reveal_strlit(".");
    reveal_strlit("..");
    let none = Seq::<char>::empty();
    let dev = seq!['d', 'e', 'v'];
    let tail = dev + seq!['/'] + name;
    assert("/dev/"@ + name =~= none + seq!['/'] + tail);
    first_fields(none, '/', tail);
    first_fields(dev, '/', name);
    lone_fields(name, '/');
    let parts = split_on("/dev/"@ + name, '/');
    assert(parts =~= seq![none, dev, name]);
    assert(parts.last() == name);
    assert(counts(name));
    assert(last_counting(parts) == Some(name));
}

/// The disk of a partition is its device without the number of the partition.
pub proof fn disks_of_partitions(name: Seq<char>, digits: Seq<char>)
    requires
        name.len() > 2,
        lacks_char(name, '/'),
        !is_digit(name.last()),
        all_digits(digits),
        !has_prefix(name + digits, "nvme"@),
        !has_prefix(name + digits, "mmcblk"@),
    ensures
        disk_of("/dev/"@ + (name + digits)) == "/dev/"@ + name,
{
    let s = name + digits;
    assert(lacks_char(s, '/')) by {
        assert forall|i: int| 0 <= i < s.len() implies #[trigger] s[i] != '/' by {
            if i < name.len() {
                assert(s[i] == name[i]);
            } else {
                assert('0' <= digits[i - name.len()] <= '9');
            }
        }
    }
    device_name(s);
    digits_come_off(name, digits);
}

/// The disks of NVMe and memory cards end with a number themselves: a `p` stands between it and
/// the number of the partition.
pub proof fn disks_of_numbered_partitions(rest: Seq<char>, digits: Seq<char>)
    requires
        rest.len() > 0,
        lacks_char(rest, '/'),
        all_digits(digits),
    ensures
        disk_of("/dev/"@ + ("nvme"@ + rest + seq!['p'] + digits)) == "/dev/"@ + ("nvme"@ + rest),
        disk_of("/dev/"@ + ("mmcblk"@ + rest + seq!['p'] + digits)) == "/dev/"@ + ("mmcblk"@ + rest),
{
    reveal_strlit("nvme");
    reveal_strlit("mmcblk");
    numbered_disk("nvme"@, rest, digits);
    numbered_disk("mmcblk"@, rest, digits);
}

proof fn numbered_disk(kind: Seq<char>, rest: Seq<char>, digits: Seq<char>)
    requires
        kind == "nvme"@ || kind == "mmcblk"@,
        kind.len() > 2,
        lacks_char(kind, '/'),
        rest.len() > 0,
        lacks_char(rest, '/'),
        all_digits(digits),
    ensures
        disk_of("/dev/"@ + (kind + rest + seq!['p'] + digits)) == "/dev/"@ + (kind + rest),
{
    reveal_strlit("p");
    let front = kind + rest;
    let s = front + seq!['p'] + digits;
    assert(lacks_char(s, '/')) by {
        assert forall|i: int| 0 <= i < s.len() implies #[trigger] s[i] != '/' by {
            if i < kind.len() {
                assert(s[i] == kind[i]);
            } else if i < front.len() {
                assert(s[i] == rest[i - kind.len()]);
            } else if i > front.len() {
                assert('0' <= digits[i - front.len() - 1] <= '9');
            }
        }
    }
    device_name(s);
    let k = front.len() as int;
    assert("p"@ =~= seq!['p']);
    assert(s.subrange(k, k + 1) =~= seq!['p']);
    assert forall|j: int| k < j <= s.len() implies !#[trigger] occurs_at(s, "p"@, j) by {
        if occurs_at(s, "p"@, j) {
            assert(s.subrange(j, j + 1)[0] == s[j]);
            assert('0' <= digits[j - k - 1] <= '9');
        }
    }
    last_part_found(s, "p"@, s.len() as int, k);
    assert(s.take(k) =~= front);
    assert(s =~= kind + (rest + seq!['p'] + digits));
    behind_prefix(kind, rest + seq!['p'] + digits);
}

/// What is read of a number that is none is nothing.
pub proof fn words_are_no_numbers(s: Seq<char>, i: int)
    requires
        0 <= i < s.len(),
        !('0' <= s[i] <= '9'),
        s[0] != '+',
    ensures
        number_or_zero(s) == 0,
{
    crate::reading::only_digits_are_numbers(s, u64::MAX as nat, i);
}

/// The table starts behind its heading, which begins with the number and names the start and the
/// end. No other line starts it, and none ends it.
pub proof fn sgdisk_headings(
    st: SgdiskState,
    line: Seq<char>,
    a: Seq<char>,
    b: Seq<char>,
    c: Seq<char>,
)
    ensures
        trim(line) == "Number"@ + a + "Start"@ + b + "End"@ + c ==> sgdisk_step(st, line) == (
        SgdiskState { in_table: true, ..st }),
        !has_prefix(trim(line), "Number"@) ==> sgdisk_step(st, line).in_table == st.in_table,
        st.in_table ==> sgdisk_step(st, line).in_table,
{
    reveal_strlit("Disk identifier (GUID):");
    reveal_strlit("Number");
    reveal_strlit("Start");
    reveal_strlit("End");
    let t = trim(line);
    if t == "Number"@ + a + "Start"@ + b + "End"@ + c {
        assert(t.take(6) =~= "Number"@);
        let i = 6 + a.len() as int;
        assert(t.subrange(i, i + 5) =~= "Start"@);
        assert(occurs_at(t, "Start"@, i));
        let j = i + 5 + b.len();
        assert(t.subrange(j, j + 3) =~= "End"@);
        assert(occurs_at(t, "End"@, j));
        if has_prefix(t, "Disk identifier (GUID):"@) {
            assert(t.take("Disk identifier (GUID):"@.len() as int)[0] == t[0]);
        }
    }
}

} // verus!
