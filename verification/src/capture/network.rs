//! The network configuration of a host.
use crate::capture::system::CaptureWarning;
use crate::capture::system::NamedBlob;
use crate::primitives::fields_view;
use crate::primitives::items_view;
use crate::primitives::json_items;
use crate::primitives::parse_json_items;
use crate::primitives::FieldView;
use crate::primitives::JsonField;
use crate::text::after_prefix;
use crate::text::concat2;
use crate::text::copy_text;
use crate::text::find_char;
use crate::text::from_chars;
use crate::text::lines;
use crate::text::lines_of;
use crate::text::number_upto;
use crate::text::opt_text;
use crate::text::parse_number;
use crate::text::picked;
use crate::text::picked_step;
use crate::text::position_of;
use crate::text::push_text;
use crate::text::same_text;
use crate::text::strip_prefix;
use crate::text::sub_chars;
use crate::text::texts;
use crate::text::to_chars;
use crate::text::trim;
use crate::text::trimmed;
use crate::text::views;
use crate::text::words;
use crate::text::words_of;
use crate::snapshot::snapshotter::trim_text;
use vstd::prelude::*;

verus! {

/// The name servers and search domains of a host.
#[derive(Debug)]
pub struct DnsConfig {
    pub nameservers: Vec<String>,
    pub search: Vec<String>,
}

impl Default for DnsConfig {
    fn default() -> (out: Self)
        ensures
            out.nameservers@.len() == 0,
            out.search@.len() == 0,
    {
        DnsConfig { nameservers: Vec::new(), search: Vec::new() }
    }
}

/// A network interface.
#[derive(Debug)]
pub struct NetworkInterface {
    pub name: String,
    pub mac: String,
    pub kind: String,
    pub pci_address: Option<String>,
    pub driver: Option<String>,
    pub ipv4_addresses: Vec<String>,
    pub ipv6_addresses: Vec<String>,
    pub mtu: u32,
    pub state: String,
}

/// A route.
#[derive(Debug)]
pub struct RouteEntry {
    pub dst: String,
    pub gw: Option<String>,
    pub dev: String,
    pub metric: Option<u32>,
    pub family: u8,
}

/// The network configuration of a host.
#[derive(Debug)]
pub struct NetworkConfig {
    pub hostname: String,
    pub interfaces: Vec<NetworkInterface>,
    pub routes: Vec<RouteEntry>,
    pub dns: DnsConfig,
    pub networkmanager_profiles: Vec<NamedBlob>,
    pub systemd_networkd_files: Vec<NamedBlob>,
    pub etc_network_interfaces: Option<String>,
    pub netplan_yaml_files: Vec<NamedBlob>,
    pub resolv_conf: Option<String>,
    pub hosts: Option<String>,
}

impl NetworkConfig {
    /// Whether nothing is known of the network.
    pub open spec fn is_blank(self) -> bool {
        &&& self.hostname@ == Seq::<char>::empty()
        &&& self.interfaces@.len() == 0
        &&& self.routes@.len() == 0
        &&& self.dns.nameservers@.len() == 0
        &&& self.dns.search@.len() == 0
        &&& self.networkmanager_profiles@.len() == 0
        &&& self.systemd_networkd_files@.len() == 0
        &&& self.etc_network_interfaces is None
        &&& self.netplan_yaml_files@.len() == 0
        &&& self.resolv_conf is None
        &&& self.hosts is None
    }
}

impl Default for NetworkConfig {
    fn default() -> (out: Self)
        ensures
            out.is_blank(),
    {
        NetworkConfig {
            hostname: String::new(),
            interfaces: Vec::new(),
            routes: Vec::new(),
            dns: DnsConfig::default(),
            networkmanager_profiles: Vec::new(),
            systemd_networkd_files: Vec::new(),
            etc_network_interfaces: None,
            netplan_yaml_files: Vec::new(),
            resolv_conf: None,
            hosts: None,
        }
    }
}

// --- Name servers --------------------------------------------------------------------------

/// A line without the comment that ends it and the white space around it.
pub open spec fn bare_line(line: Seq<char>) -> Seq<char> {
    trim(line.take(find_char(line, '#')))
}

/// The name server of a line.
pub open spec fn nameserver_of(line: Seq<char>) -> Option<Seq<char>> {
    match after_prefix(bare_line(line), "nameserver"@) {
        Some(rest) => if trim(rest).len() > 0 {
            Some(trim(rest))
        } else {
            None
        },
        None => None,
    }
}

pub open spec fn nameserver_rule() -> spec_fn(Seq<char>) -> Option<Seq<char>> {
    |line: Seq<char>| nameserver_of(line)
}

/// The search domains of a line.
pub open spec fn search_of(line: Seq<char>) -> Seq<Seq<char>> {
    if after_prefix(bare_line(line), "nameserver"@) is Some {
        Seq::empty()
    } else {
        match after_prefix(bare_line(line), "search"@) {
            Some(rest) => words(rest),
            None => Seq::empty(),
        }
    }
}

/// The search domains of several lines.
pub open spec fn searches(list: Seq<Seq<char>>) -> Seq<Seq<char>>
    decreases list.len(),
{
    if list.len() == 0 {
        Seq::empty()
    } else {
        searches(list.drop_last()) + search_of(list.last())
    }
}

fn strip_comment(line: &[char]) -> (out: Vec<char>)
    ensures
        out@ == bare_line(line@),
{
    let k = position_of(line, '#');
    let front = sub_chars(line, 0, k);
    assert(front@ =~= line@.take(k as int));
    trimmed(front.as_slice())
}

fn push_words(list: &mut Vec<String>, parts: &Vec<Vec<char>>)
    ensures
        texts(final(list)@) == texts(old(list)@) + views(parts@),
{
    let ghost before = texts(list@);
    let mut i: usize = 0;
    assert(texts(list@) =~= before + views(parts@).take(0));
    while i < parts.len()
        invariant
            i <= parts@.len(),
            texts(list@) == before + views(parts@).take(i as int),
        decreases parts@.len() - i,
    {
        let word = from_chars(parts[i].as_slice());
        push_text(list, word.as_str());
        assert(texts(list@) =~= before + views(parts@).take(i as int + 1));
        i += 1;
    }
    assert(views(parts@).take(i as int) =~= views(parts@));
}

/// Reads a resolver configuration.
pub fn parse_resolv_conf(s: &str) -> (out: DnsConfig)
    ensures
        texts(out.nameservers@) == picked(lines(s@), nameserver_rule()),
        texts(out.search@) == searches(lines(s@)),
{
    let list = lines_of(to_chars(s).as_slice());
    let ghost all = lines(s@);
    let mut nameservers: Vec<String> = Vec::new();
    let mut search: Vec<String> = Vec::new();
    let mut i: usize = 0;
    assert(all.take(0) =~= Seq::<Seq<char>>::empty());
    assert(texts(nameservers@) =~= Seq::<Seq<char>>::empty());
    assert(texts(search@) =~= Seq::<Seq<char>>::empty());
    while i < list.len()
        invariant
            i <= list@.len(),
            views(list@) == all,
            texts(nameservers@) == picked(all.take(i as int), nameserver_rule()),
            texts(search@) == searches(all.take(i as int)),
        decreases list@.len() - i,
    {
        assert(all[i as int] == list@[i as int]@);
        proof {
            picked_step(all, nameserver_rule(), i as int);
            assert(all.take(i as int + 1).drop_last() =~= all.take(i as int));
        }
        let line = strip_comment(list[i].as_slice());
        if let Some(rest) = strip_prefix(line.as_slice(), "nameserver") {
            let v = trimmed(rest.as_slice());
            if v.len() > 0 {
                push_text(&mut nameservers, from_chars(v.as_slice()).as_str());
            }
            assert(search_of(all[i as int]) =~= Seq::<Seq<char>>::empty());
            assert(texts(search@) + Seq::<Seq<char>>::empty() =~= texts(search@));
        } else if let Some(rest) = strip_prefix(line.as_slice(), "search") {
            let parts = words_of(rest.as_slice());
            push_words(&mut search, &parts);
        } else {
            assert(texts(search@) + Seq::<Seq<char>>::empty() =~= texts(search@));
        }
        i += 1;
    }
    assert(all.take(i as int) =~= all);
    DnsConfig { nameservers, search }
}

// --- Interfaces ----------------------------------------------------------------------------

/// The device type that the lines of an event file name first.
pub open spec fn devtype(list: Seq<Seq<char>>, i: int) -> Option<Seq<char>>
    decreases list.len() - i,
{
    if i < 0 || i >= list.len() {
        None
    } else {
        match after_prefix(list[i], "DEVTYPE="@) {
            Some(v) => Some(v),
            None => devtype(list, i + 1),
        }
    }
}

/// The kind of an interface.
pub open spec fn kind_of(name: Seq<char>, uevent: Option<Seq<char>>) -> Seq<char> {
    let named = match uevent {
        Some(text) => devtype(lines(text), 0),
        None => None,
    };
    match named {
        Some(v) => v,
        None => if name == "lo"@ {
            "loopback"@
        } else {
            "ethernet"@
        },
    }
}

/// The kind of an interface, from its event file.
pub fn interface_kind(name: &str, uevent: Option<&str>) -> (out: String)
    ensures
        out@ == kind_of(
            name@,
            match uevent {
                Some(t) => Some(t@),
                None => None,
            },
        ),
{
    if let Some(text) = uevent {
        let list = lines_of(to_chars(text).as_slice());
        let ghost all = lines(text@);
        let mut i: usize = 0;
        while i < list.len()
            invariant
                i <= list@.len(),
                views(list@) == all,
                all == lines(text@),
                uevent == Some(text),
                devtype(all, 0) == devtype(all, i as int),
            decreases list@.len() - i,
        {
            assert(all[i as int] == list@[i as int]@);
            if let Some(v) = strip_prefix(list[i].as_slice(), "DEVTYPE=") {
                return from_chars(v.as_slice());
            }
            i += 1;
        }
        assert(devtype(all, i as int) is None);
    }
    if same_text(name, "lo") {
        copy_text("loopback")
    } else {
        copy_text("ethernet")
    }
}

/// A number in a file of the system, or a default where there is none.
pub open spec fn number_in(text: Option<Seq<char>>, limit: nat, default: nat) -> nat {
    match text {
        Some(t) => match number_upto(trim(t), limit) {
            Some(n) => n,
            None => default,
        },
        None => default,
    }
}

/// A number in a file of the system, or a default where there is none.
pub fn read_number(text: Option<&str>, limit: u64, default: u64) -> (out: u64)
    ensures
        out == number_in(
            match text {
                Some(t) => Some(t@),
                None => None,
            },
            limit as nat,
            default as nat,
        ),
{
    match text {
        Some(t) => {
            let chars = trimmed(to_chars(t).as_slice());
            match parse_number(chars.as_slice(), limit) {
                Some(n) => n,
                None => default,
            }
        },
        None => default,
    }
}

/// The text of a file of the system without the white space around it; empty where there is none.
pub open spec fn text_in(text: Option<Seq<char>>) -> Seq<char> {
    match text {
        Some(t) => trim(t),
        None => Seq::empty(),
    }
}

fn read_text(text: Option<&str>) -> (out: String)
    ensures
        out@ == text_in(
            match text {
                Some(t) => Some(t@),
                None => None,
            },
        ),
{
    match text {
        Some(t) => trim_text(t),
        None => String::new(),
    }
}

/// What the system says of an interface.
pub struct InterfaceFiles<'a> {
    pub address: Option<&'a str>,
    pub mtu: Option<&'a str>,
    pub operstate: Option<&'a str>,
    pub uevent: Option<&'a str>,
}

pub open spec fn str_view(s: Option<&str>) -> Option<Seq<char>> {
    match s {
        Some(t) => Some(t@),
        None => None,
    }
}

/// An interface, from what the system says of it.
pub fn read_interface(
    name: &str,
    files: &InterfaceFiles,
    driver: Option<String>,
    pci_address: Option<String>,
) -> (out: NetworkInterface)
    ensures
        out.name@ == name@,
        out.mac@ == text_in(str_view(files.address)),
        out.kind@ == kind_of(name@, str_view(files.uevent)),
        out.pci_address == pci_address,
        out.driver == driver,
        out.ipv4_addresses@.len() == 0,
        out.ipv6_addresses@.len() == 0,
        out.mtu == number_in(str_view(files.mtu), u32::MAX as nat, 0),
        out.state@ == text_in(str_view(files.operstate)),
{
    let mtu: u64 = read_number(files.mtu, u32::MAX as u64, 0);
    assert(mtu <= u32::MAX);
    NetworkInterface {
        name: copy_text(name),
        mac: read_text(files.address),
        kind: interface_kind(name, files.uevent),
        pci_address,
        driver,
        ipv4_addresses: Vec::new(),
        ipv6_addresses: Vec::new(),
        mtu: mtu as u32,
        state: read_text(files.operstate),
    }
}

// --- Routes --------------------------------------------------------------------------------

/// A route, from the fields of its record. A metric keeps its low 32 bits; a route is one of
/// IPv4 unless it says otherwise.
fn route_entry(
    dst: Option<&str>,
    gateway: Option<&str>,
    dev: Option<&str>,
    metric: Option<u64>,
    family: Option<&str>,
) -> (out: RouteEntry)
    ensures
        out.dst@ == match dst {
            Some(t) => t@,
            None => Seq::empty(),
        },
        opt_text(out.gw) == str_view(gateway),
        out.dev@ == match dev {
            Some(t) => t@,
            None => Seq::empty(),
        },
        out.metric is Some <==> metric is Some,
        out.metric matches Some(m) ==> m == metric->0 % 0x1_0000_0000,
        out.family == if str_view(family) == Some("inet6"@) {
            10u8
        } else {
            2u8
        },
{
    let six = match family {
        Some(f) => same_text(f, "inet6"),
        None => false,
    };
    RouteEntry {
        dst: match dst {
            Some(t) => copy_text(t),
            None => String::new(),
        },
        gw: match gateway {
            Some(t) => Some(copy_text(t)),
            None => None,
        },
        dev: match dev {
            Some(t) => copy_text(t),
            None => String::new(),
        },
        metric: match metric {
            Some(m) => Some((m % 0x1_0000_0000) as u32),
            None => None,
        },
        family: if six {
            10
        } else {
            2
        },
    }
}

/// The first field of a record with the given name, looked for from the given place on.
pub open spec fn field_from(
    record: Seq<FieldView>,
    name: Seq<char>,
    from: int,
) -> Option<(Option<Seq<char>>, Option<u64>)>
    decreases record.len() - from,
{
    if from < 0 || from >= record.len() {
        None
    } else if record[from].0 == name {
        Some((record[from].1, record[from].2))
    } else {
        field_from(record, name, from + 1)
    }
}

/// The text of a field.
pub open spec fn field_text(
    record: Seq<FieldView>,
    name: Seq<char>,
) -> Option<Seq<char>> {
    match field_from(record, name, 0) {
        Some((text, _)) => text,
        None => None,
    }
}

/// The number of a field.
pub open spec fn field_number(
    record: Seq<FieldView>,
    name: Seq<char>,
) -> Option<u64> {
    match field_from(record, name, 0) {
        Some((_, number)) => number,
        None => None,
    }
}

fn find_field<'a>(record: &'a Vec<JsonField>, name: &str) -> (out: (Option<&'a str>, Option<u64>))
    ensures
        str_view(out.0) == field_text(fields_view(record@), name@),
        out.1 == field_number(fields_view(record@), name@),
{
    let mut i: usize = 0;
    let ghost all = fields_view(record@);
    while i < record.len()
        invariant
            i <= record@.len(),
            all == fields_view(record@),
            field_from(all, name@, 0) == field_from(all, name@, i as int),
        decreases record@.len() - i,
    {
        let field = &record[i];
        assert(all[i as int] == (field.0@, opt_text(field.1), field.2));
        if same_text(field.0.as_str(), name) {
            return match &field.1 {
                Some(text) => (Some(text.as_str()), field.2),
                None => (None, field.2),
            };
        }
        i += 1;
    }
    (None, None)
}

/// Whether a route says what its record says. A metric keeps its low 32 bits; a route is one of
/// IPv4 unless its record says otherwise.
pub open spec fn is_route(
    route: RouteEntry,
    record: Seq<FieldView>,
) -> bool {
    &&& route.dst@ == match field_text(record, "dst"@) {
        Some(t) => t,
        None => Seq::empty(),
    }
    &&& opt_text(route.gw) == field_text(record, "gateway"@)
    &&& route.dev@ == match field_text(record, "dev"@) {
        Some(t) => t,
        None => Seq::empty(),
    }
    &&& route.metric == match field_number(record, "metric"@) {
        Some(m) => Some((m % 0x1_0000_0000) as u32),
        None => None,
    }
    &&& route.family == if field_text(record, "family"@) == Some("inet6"@) {
        10u8
    } else {
        2u8
    }
}

/// The fields of an item; one that is no object has none.
pub open spec fn item_fields(item: Option<Seq<FieldView>>) -> Seq<FieldView> {
    match item {
        Some(fields) => fields,
        None => Seq::empty(),
    }
}

/// Whether routes say what the items of a listing say, one for each item; a listing that is no
/// array has none.
pub open spec fn are_routes(
    routes: Seq<RouteEntry>,
    items: Option<Seq<Option<Seq<FieldView>>>>,
) -> bool {
    match items {
        None => routes.len() == 0,
        Some(list) => {
            &&& routes.len() == list.len()
            &&& forall|i: int|
                0 <= i < list.len() ==> is_route(#[trigger] routes[i], item_fields(list[i]))
        },
    }
}

/// The routes that the items of a listing stand for. The listing is `None` where it is no array,
/// and an item where it is no object.
pub fn read_routes(items: &Option<Vec<Option<Vec<JsonField>>>>) -> (out: Vec<RouteEntry>)
    ensures
        are_routes(
            out@,
            match *items {
                Some(list) => Some(items_view(list@)),
                None => None,
            },
        ),
{
    let mut out: Vec<RouteEntry> = Vec::new();
    let list = match items {
        Some(list) => list,
        None => {
            return out;
        },
    };
    let none: Vec<JsonField> = Vec::new();
    let mut i: usize = 0;
    while i < list.len()
        invariant
            i <= list@.len(),
            out@.len() == i,
            none@.len() == 0,
            forall|j: int|
                0 <= j < i ==> is_route(#[trigger] out@[j], item_fields(items_view(list@)[j])),
        decreases list@.len() - i,
    {
        let record = match &list[i] {
            Some(fields) => fields,
            None => &none,
        };
        proof {
            assert(fields_view(none@) =~= Seq::empty());
            assert(fields_view(record@) == item_fields(items_view(list@)[i as int]));
        }
        out.push(
            route_entry(
                find_field(record, "dst").0,
                find_field(record, "gateway").0,
                find_field(record, "dev").0,
                find_field(record, "metric").1,
                find_field(record, "family").0,
            ),
        );
        i += 1;
    }
    out
}

/// The routes that `ip -j route show` lists.
pub fn parse_ip_route_json(s: &str) -> (out: Result<Vec<RouteEntry>, String>)
    ensures
        match (out, json_items(s@)) {
            (Ok(routes), Ok(items)) => are_routes(routes@, items),
            (Err(m), Err(e)) => m@ == "ip route JSON: "@ + e,
            _ => false,
        },
{
    match parse_json_items(s) {
        Ok(items) => Ok(read_routes(&items)),
        Err(e) => Err(concat2("ip route JSON: ", e.as_str())),
    }
}

// --- Configuration files -------------------------------------------------------------------

/// The largest configuration file that is kept.
pub const CONFIG_FILE_MAX: u64 = 1048576;

/// What becomes of an entry of a configuration directory.
#[derive(Debug)]
pub enum DirChoice {
    Keep,
    Skip,
    TooLarge(CaptureWarning),
}

/// What becomes of an entry of a configuration directory: files are kept, but for large ones.
pub fn config_file_choice(path: &str, is_file: bool, len: u64) -> (out: DirChoice)
    ensures
        if !is_file {
            out is Skip
        } else if len > CONFIG_FILE_MAX {
            &&& out matches DirChoice::TooLarge(w)
            &&& w@ == ("network"@, path@ + " exceeds 1MiB cap; skipped"@, None::<Seq<char>>)
        } else {
            out is Keep
        },
{
    if !is_file {
        DirChoice::Skip
    } else if len > CONFIG_FILE_MAX {
        let message = concat2(path, " exceeds 1MiB cap; skipped");
        DirChoice::TooLarge(CaptureWarning::new("network", message.as_str()))
    } else {
        DirChoice::Keep
    }
}

/// Servers and domains are gathered line by line.
pub proof fn resolver_lines_add_up(list: Seq<Seq<char>>, line: Seq<char>)
    ensures
        nameserver_rule()(line) == nameserver_of(line),
        searches(Seq::empty()).len() == 0,
        searches(list.push(line)) == searches(list) + search_of(line),
{
    assert(list.push(line).drop_last() =~= list);
}

/// A listing of routes has one route for each of its items; what is no array has none, and an item
/// that is no object has no fields.
pub proof fn each_item_is_a_route(
    routes: Seq<RouteEntry>,
    items: Option<Seq<Option<Seq<FieldView>>>>,
)
    requires
        are_routes(routes, items),
    ensures
        items is None ==> routes.len() == 0,
        items matches Some(list) ==> routes.len() == list.len() && forall|i: int|
            0 <= i < list.len() ==> match list[i] {
                Some(fields) => is_route(#[trigger] routes[i], fields),
                None => is_route(routes[i], Seq::empty()),
            },
{
}

/// The sizes up to which files of the configuration are taken.
pub proof fn network_limits()
    ensures
        CONFIG_FILE_MAX == 1024 * 1024,
{
}

/// A blank configuration says nothing of a network.
pub proof fn blank_networks_are_empty(part: NetworkConfig)
    requires
        part.is_blank(),
    ensures
        part.hostname@.len() == 0,
        part.interfaces@.len() == 0,
        part.routes@.len() == 0,
        part.dns.nameservers@.len() == 0,
        part.dns.search@.len() == 0,
        part.networkmanager_profiles@.len() == 0,
        part.systemd_networkd_files@.len() == 0,
        part.etc_network_interfaces is None,
        part.netplan_yaml_files@.len() == 0,
        part.resolv_conf is None,
        part.hosts is None,
{
}

} // verus!
