//! The disks of a host and their partition tables.
use crate::bytes::copy_range;
use crate::capture::network::number_in;
use crate::capture::network::read_number;
use crate::capture::network::str_view;
use crate::capture::network::text_in;
use crate::capture::system::CaptureWarning;
use crate::capture::system::WarningFact;
use crate::catalog::rows::facts;
use crate::catalog::rows::facts_push;
use crate::snapshot::snapshotter::trim_text;
use crate::text::after_part;
use crate::text::after_prefix;
use crate::text::chars_are;
use crate::text::concat2;
use crate::text::concat3;
use crate::text::contains_part;
use crate::text::copy_text;
use crate::text::from_chars;
use crate::text::has_part;
use crate::text::has_prefix;
use crate::text::hex_u8;
use crate::text::join_from;
use crate::text::join_with;
use crate::text::lines;
use crate::text::lines_of;
use crate::text::number_upto;
use crate::text::parse_hex_u8;
use crate::text::parse_number;
use crate::text::picked;
use crate::text::picked_step;
use crate::text::same_text;
use crate::text::split;
use crate::text::split_on;
use crate::text::starts_with;
use crate::text::strip_prefix;
use crate::text::text_after;
use crate::text::to_chars;
use crate::text::trim;
use crate::text::trimmed;
use crate::text::views;
use crate::text::words;
use crate::text::words_of;
use vstd::prelude::*;

verus! {

/// The kind of a partition table.
#[derive(Debug, Clone, Copy, PartialEq, Eq, Structural)]
pub enum TableKind {
    Gpt,
    Mbr,
    NoTable,
}

/// A partition of a GPT.
#[verifier::ext_equal]
pub struct GptFact {
    pub number: u32,
    pub partition_guid: Seq<char>,
    pub type_guid: Seq<char>,
    pub name: Seq<char>,
    pub start_lba: u64,
    pub end_lba: u64,
    pub attributes: u64,
}

/// A partition of a GPT.
#[derive(Debug)]
pub struct GptPartition {
    pub number: u32,
    pub partition_guid: String,
    pub type_guid: String,
    pub name: String,
    pub start_lba: u64,
    pub end_lba: u64,
    pub attributes: u64,
}

impl View for GptPartition {
    type V = GptFact;

    open spec fn view(&self) -> GptFact {
        GptFact {
            number: self.number,
            partition_guid: self.partition_guid@,
            type_guid: self.type_guid@,
            name: self.name@,
            start_lba: self.start_lba,
            end_lba: self.end_lba,
            attributes: self.attributes,
        }
    }
}

/// A partition of an MBR.
#[derive(Debug, Clone, Copy, PartialEq, Eq, Structural)]
pub struct MbrPartition {
    pub number: u32,
    pub partition_type: u8,
    pub start_lba: u64,
    pub size_lba: u64,
    pub bootable: bool,
}

/// The partition table of a disk, with what is needed to write it again.
#[derive(Debug)]
pub enum PartitionTable {
    Gpt { disk_guid: String, partitions: Vec<GptPartition>, raw_dump: Vec<u8> },
    Mbr { partitions: Vec<MbrPartition>, raw_dump: Vec<u8>, boot_code: Vec<u8> },
    NoTable,
}

/// A disk.
#[derive(Debug)]
pub struct DiskLayout {
    pub device: String,
    pub by_id: Option<String>,
    pub by_path: Option<String>,
    pub model: String,
    pub serial: String,
    pub size_bytes: u64,
    pub logical_block_size: u32,
    pub physical_block_size: u32,
    pub rotational: bool,
    pub partition_table: PartitionTable,
}

// --- The first sector ----------------------------------------------------------------------

/// The type of a partition in the table of the first sector.
pub open spec fn slot_type(sector: Seq<u8>, slot: int) -> u8 {
    sector[446 + slot * 16 + 4]
}

/// The kind of partition table that the first sector of a disk shows: a boot signature, and a
/// partition of the protective type on a disk with a GPT.
pub open spec fn table_kind(sector: Seq<u8>) -> TableKind {
    if sector.len() < 512 || sector[510] != 0x55 || sector[511] != 0xaa {
        TableKind::NoTable
    } else if exists|slot: int| 0 <= slot < 4 && #[trigger] slot_type(sector, slot) == 0xee {
        TableKind::Gpt
    } else {
        TableKind::Mbr
    }
}

/// The kind of partition table that the first sector of a disk shows.
pub fn detect_table_kind(sector_0: &[u8]) -> (out: TableKind)
    ensures
        out == table_kind(sector_0@),
{
    if sector_0.len() < 512 {
        return TableKind::NoTable;
    }
    if sector_0[510] != 0x55 || sector_0[511] != 0xaa {
        return TableKind::NoTable;
    }
    let mut slot: usize = 0;
    while slot < 4
        invariant
            slot <= 4,
            sector_0@.len() >= 512,
            sector_0@[510] == 0x55,
            sector_0@[511] == 0xaa,
            forall|k: int| 0 <= k < slot ==> #[trigger] slot_type(sector_0@, k) != 0xee,
        decreases 4 - slot,
    {
        let kind: u8 = sector_0[446 + slot * 16 + 4];
        assert(kind == slot_type(sector_0@, slot as int));
        if kind == 0xee {
            return TableKind::Gpt;
        }
        slot += 1;
    }
    TableKind::Mbr
}

// --- sgdisk --------------------------------------------------------------------------------

/// What has been read of the output of `sgdisk --print`.
#[verifier::ext_equal]
pub struct SgdiskState {
    pub guid: Seq<char>,
    pub in_table: bool,
    pub partitions: Seq<GptFact>,
}

/// The number that a text stands for, or 0 where it is none.
pub open spec fn number_or_zero(s: Seq<char>) -> u64 {
    match number_upto(s, u64::MAX as nat) {
        Some(n) => n as u64,
        None => 0,
    }
}

/// A row of the table: number, first and last sector, size and its unit, code, name.
pub open spec fn gpt_row(line: Seq<char>) -> Option<GptFact> {
    let w = words(line);
    if w.len() < 5 || number_upto(w[0], u32::MAX as nat) is None {
        None
    } else {
        Some(
            GptFact {
                number: number_upto(w[0], u32::MAX as nat)->0 as u32,
                partition_guid: Seq::empty(),
                type_guid: Seq::empty(),
                name: if w.len() > 6 {
                    join_with(w.skip(6), " "@)
                } else {
                    Seq::empty()
                },
                start_lba: number_or_zero(w[1]),
                end_lba: number_or_zero(w[2]),
                attributes: 0,
            },
        )
    }
}

/// What is known after one more line.
pub open spec fn sgdisk_step(st: SgdiskState, line: Seq<char>) -> SgdiskState {
    let t = trim(line);
    match after_prefix(t, "Disk identifier (GUID):"@) {
        Some(rest) => SgdiskState { guid: trim(rest), ..st },
        None => if has_prefix(t, "Number"@) && has_part(t, "Start"@) && has_part(t, "End"@) {
            SgdiskState { in_table: true, ..st }
        } else if !st.in_table {
            st
        } else {
            match gpt_row(t) {
                Some(p) => SgdiskState { partitions: st.partitions.push(p), ..st },
                None => st,
            }
        },
    }
}

/// What is known after several lines.
pub open spec fn sgdisk_scan(list: Seq<Seq<char>>) -> SgdiskState
    decreases list.len(),
{
    if list.len() == 0 {
        SgdiskState { guid: Seq::empty(), in_table: false, partitions: Seq::empty() }
    } else {
        sgdisk_step(sgdisk_scan(list.drop_last()), list.last())
    }
}

fn parse_or_zero(s: &[char]) -> (out: u64)
    ensures
        out == number_or_zero(s@),
{
    match parse_number(s, u64::MAX) {
        Some(n) => n,
        None => 0,
    }
}

fn read_gpt_row(line: &[char]) -> (out: Option<GptPartition>)
    ensures
        out is Some <==> gpt_row(line@) is Some,
        out matches Some(p) ==> gpt_row(line@) == Some(p@),
{
    let w = words_of(line);
    assert(views(w@).len() == w@.len());
    if w.len() < 5 {
        return None;
    }
    assert(views(w@)[0] == w@[0]@);
    assert(views(w@)[1] == w@[1]@);
    assert(views(w@)[2] == w@[2]@);
    let number: u64 = match parse_number(w[0].as_slice(), u32::MAX as u64) {
        Some(n) => n,
        None => {
            return None;
        },
    };
    let name = if w.len() > 6 {
        join_from(&w, 6, " ")
    } else {
        String::new()
    };
    Some(
        GptPartition {
            number: number as u32,
            partition_guid: String::new(),
            type_guid: String::new(),
            name,
            start_lba: parse_or_zero(w[1].as_slice()),
            end_lba: parse_or_zero(w[2].as_slice()),
            attributes: 0,
        },
    )
}

/// Reads the output of `sgdisk --print`: the identifier of the disk and its partitions.
pub fn parse_sgdisk_print(s: &str) -> (out: Result<(String, Vec<GptPartition>), String>)
    ensures
        out is Err <==> sgdisk_scan(lines(s@)).guid.len() == 0 && sgdisk_scan(
            lines(s@),
        ).partitions.len() == 0,
        match out {
            Ok((guid, partitions)) => guid@ == sgdisk_scan(lines(s@)).guid && facts(partitions@)
                == sgdisk_scan(lines(s@)).partitions,
            Err(e) => e@
                == "sgdisk output did not contain a disk identifier or partition table"@,
        },
{
    let list = lines_of(to_chars(s).as_slice());
    let ghost all = lines(s@);
    let mut guid: String = String::new();
    let mut in_table = false;
    let mut partitions: Vec<GptPartition> = Vec::new();
    let mut i: usize = 0;
    assert(all.take(0) =~= Seq::<Seq<char>>::empty());
    assert(facts(partitions@) =~= Seq::<GptFact>::empty());
    while i < list.len()
        invariant
            i <= list@.len(),
            views(list@) == all,
            sgdisk_scan(all.take(i as int)) == (SgdiskState {
                guid: guid@,
                in_table,
                partitions: facts(partitions@),
            }),
        decreases list@.len() - i,
    {
        assert(all.take(i as int + 1).drop_last() =~= all.take(i as int));
        assert(all.take(i as int + 1).last() == list@[i as int]@);
        let t = trimmed(list[i].as_slice());
        if let Some(rest) = strip_prefix(t.as_slice(), "Disk identifier (GUID):") {
            guid = from_chars(trimmed(rest.as_slice()).as_slice());
        } else if starts_with(t.as_slice(), "Number") && contains_part(t.as_slice(), "Start")
            && contains_part(t.as_slice(), "End") {
            in_table = true;
        } else if in_table {
            if let Some(p) = read_gpt_row(t.as_slice()) {
                proof {
                    facts_push(partitions@, p);
                }
                partitions.push(p);
            }
        }
        i += 1;
    }
    assert(all.take(i as int) =~= all);
    if to_chars(guid.as_str()).len() == 0 && partitions.len() == 0 {
        return Err(
            copy_text("sgdisk output did not contain a disk identifier or partition table"),
        );
    }
    Ok((guid, partitions))
}

// --- sfdisk --------------------------------------------------------------------------------

/// What the fields of a line of `sfdisk --dump` say.
pub struct SfdiskFields {
    pub start: u64,
    pub size: u64,
    pub kind: u8,
    pub bootable: bool,
}

/// A partition type, in hexadecimal digits if they make a byte, or else in decimal ones.
pub open spec fn partition_type(s: Seq<char>) -> u8 {
    match hex_u8(s) {
        Some(n) => n as u8,
        None => match number_upto(s, 255) {
            Some(n) => n as u8,
            None => 0,
        },
    }
}

/// What is known after one more field.
pub open spec fn sfdisk_field(f: SfdiskFields, piece: Seq<char>) -> SfdiskFields {
    let p = trim(piece);
    if after_part(p, "start="@) is Some {
        SfdiskFields { start: number_or_zero(trim(after_part(p, "start="@)->0)), ..f }
    } else if after_part(p, "size="@) is Some {
        SfdiskFields { size: number_or_zero(trim(after_part(p, "size="@)->0)), ..f }
    } else if after_part(p, "type="@) is Some {
        SfdiskFields { kind: partition_type(trim(after_part(p, "type="@)->0)), ..f }
    } else if p == "bootable"@ {
        SfdiskFields { bootable: true, ..f }
    } else {
        f
    }
}

/// What several fields say.
pub open spec fn sfdisk_fields(pieces: Seq<Seq<char>>) -> SfdiskFields
    decreases pieces.len(),
{
    if pieces.len() == 0 {
        SfdiskFields { start: 0, size: 0, kind: 0, bootable: false }
    } else {
        sfdisk_field(sfdisk_fields(pieces.drop_last()), pieces.last())
    }
}

/// What a line says of a partition. Partitions without size are left out.
pub open spec fn sfdisk_line(line: Seq<char>) -> Option<SfdiskFields> {
    let t = trim(line);
    let f = sfdisk_fields(split_on(t, ','));
    if has_part(t, ": start="@) && f.size > 0 {
        Some(f)
    } else {
        None
    }
}

pub open spec fn sfdisk_rule() -> spec_fn(Seq<char>) -> Option<SfdiskFields> {
    |line: Seq<char>| sfdisk_line(line)
}

/// The partitions with their numbers, from 1 on.
pub open spec fn numbered_partitions(list: Seq<SfdiskFields>) -> Seq<MbrPartition> {
    Seq::new(
        list.len(),
        |i: int|
            MbrPartition {
                number: (i + 1) as u32,
                partition_type: list[i].kind,
                start_lba: list[i].start,
                size_lba: list[i].size,
                bootable: list[i].bootable,
            },
    )
}

/// The partitions of a disk are numbered from 1 on without a gap, so no two have the same number;
/// and each has the start, size, type and boot flag that its own line gives.
pub proof fn partitions_are_numbered(list: Seq<SfdiskFields>)
    requires
        list.len() < u32::MAX,
    ensures
        numbered_partitions(list).len() == list.len(),
        forall|i: int|
            0 <= i < list.len() ==> {
                let p = #[trigger] numbered_partitions(list)[i];
                &&& p.number == i + 1
                &&& p.start_lba == list[i].start
                &&& p.size_lba == list[i].size
                &&& p.partition_type == list[i].kind
                &&& p.bootable == list[i].bootable
            },
        forall|i: int, j: int|
            0 <= i < j < list.len() ==> (#[trigger] numbered_partitions(list)[i]).number < (
            #[trigger] numbered_partitions(list)[j]).number,
{
}

fn read_type(s: &[char]) -> (out: u8)
    ensures
        out == partition_type(s@),
{
    match parse_hex_u8(s) {
        Some(n) => n,
        None => match parse_number(s, 255) {
            Some(n) => n as u8,
            None => 0,
        },
    }
}

fn read_field(f: SfdiskFields, piece: &[char]) -> (out: SfdiskFields)
    ensures
        out == sfdisk_field(f, piece@),
{
    let p = trimmed(piece);
    if let Some(rest) = text_after(p.as_slice(), "start=") {
        SfdiskFields { start: parse_or_zero(trimmed(rest.as_slice()).as_slice()), ..f }
    } else if let Some(rest) = text_after(p.as_slice(), "size=") {
        SfdiskFields { size: parse_or_zero(trimmed(rest.as_slice()).as_slice()), ..f }
    } else if let Some(rest) = text_after(p.as_slice(), "type=") {
        SfdiskFields { kind: read_type(trimmed(rest.as_slice()).as_slice()), ..f }
    } else if chars_are(p.as_slice(), "bootable") {
        SfdiskFields { bootable: true, ..f }
    } else {
        f
    }
}

fn read_sfdisk_line(line: &[char]) -> (out: Option<SfdiskFields>)
    ensures
        out == sfdisk_line(line@),
{
    let t = trimmed(line);
    if !contains_part(t.as_slice(), ": start=") {
        return None;
    }
    let pieces = split(t.as_slice(), ',');
    let ghost all = split_on(t@, ',');
    let mut f = SfdiskFields { start: 0, size: 0, kind: 0, bootable: false };
    let mut i: usize = 0;
    assert(all.take(0) =~= Seq::<Seq<char>>::empty());
    while i < pieces.len()
        invariant
            i <= pieces@.len(),
            views(pieces@) == all,
            f == sfdisk_fields(all.take(i as int)),
        decreases pieces@.len() - i,
    {
        assert(all.take(i as int + 1).drop_last() =~= all.take(i as int));
        assert(all.take(i as int + 1).last() == pieces@[i as int]@);
        f = read_field(f, pieces[i].as_slice());
        i += 1;
    }
    assert(all.take(i as int) =~= all);
    if f.size > 0 {
        Some(f)
    } else {
        None
    }
}

/// Reads the output of `sfdisk --dump`: the partitions of the disk.
pub fn parse_sfdisk_dump(s: &str) -> (out: Result<Vec<MbrPartition>, String>)
    requires
        lines(s@).len() < u32::MAX,
    ensures
        out is Err <==> picked(lines(s@), sfdisk_rule()).len() == 0,
        match out {
            Ok(partitions) => partitions@ == numbered_partitions(picked(lines(s@), sfdisk_rule())),
            Err(e) => e@ == "sfdisk output did not list any partitions"@,
        },
        out matches Ok(partitions) ==> forall|i: int|
            0 <= i < partitions@.len() ==> (#[trigger] partitions@[i]).number == i + 1,
{
    let list = lines_of(to_chars(s).as_slice());
    let ghost all = lines(s@);
    let mut out: Vec<MbrPartition> = Vec::new();
    let mut i: usize = 0;
    assert(all.take(0) =~= Seq::<Seq<char>>::empty());
    assert(out@ =~= numbered_partitions(Seq::empty()));
    while i < list.len()
        invariant
            i <= list@.len(),
            views(list@) == all,
            all.len() < u32::MAX,
            out@.len() <= i,
            out@ == numbered_partitions(picked(all.take(i as int), sfdisk_rule())),
            forall|j: int| 0 <= j < out@.len() ==> (#[trigger] out@[j]).number == j + 1,
        decreases list@.len() - i,
    {
        assert(all[i as int] == list@[i as int]@);
        proof {
            picked_step(all, sfdisk_rule(), i as int);
        }
        if let Some(f) = read_sfdisk_line(list[i].as_slice()) {
            let number: u32 = out.len() as u32 + 1;
            let ghost before = picked(all.take(i as int), sfdisk_rule());
            out.push(
                MbrPartition {
                    number,
                    partition_type: f.kind,
                    start_lba: f.start,
                    size_lba: f.size,
                    bootable: f.bootable,
                },
            );
            assert(out@ =~= numbered_partitions(before.push(f)));
        }
        i += 1;
    }
    assert(all.take(i as int) =~= all);
    if out.len() == 0 {
        return Err(copy_text("sfdisk output did not list any partitions"));
    }
    Ok(out)
}

// --- Disks ---------------------------------------------------------------------------------

/// Whether a block device is no disk: a loop device, a RAM disk, a mapped device, an optical
/// drive.
pub open spec fn no_disk(name: Seq<char>) -> bool {
    ||| has_prefix(name, "loop"@)
    ||| has_prefix(name, "ram"@)
    ||| has_prefix(name, "dm-"@)
    ||| has_prefix(name, "zram"@)
    ||| has_prefix(name, "sr"@)
}

/// Whether a block device is no disk.
pub fn is_no_disk(name: &str) -> (yes: bool)
    ensures
        yes == no_disk(name@),
{
    let n = to_chars(name);
    let s = n.as_slice();
    starts_with(s, "loop") || starts_with(s, "ram") || starts_with(s, "dm-") || starts_with(
        s,
        "zram",
    ) || starts_with(s, "sr")
}

/// What the system says of a disk.
pub struct DiskFiles<'a> {
    pub size: Option<&'a str>,
    pub logical_block_size: Option<&'a str>,
    pub physical_block_size: Option<&'a str>,
    pub rotational: Option<&'a str>,
    pub model: Option<&'a str>,
    pub serial: Option<&'a str>,
}

/// The product of two numbers, or the largest number where it does not fit.
pub open spec fn capped_product(a: nat, b: nat) -> u64 {
    if a * b > u64::MAX {
        u64::MAX
    } else {
        (a * b) as u64
    }
}

fn text_or_empty(text: Option<&str>) -> (out: String)
    ensures
        out@ == text_in(str_view(text)),
{
    match text {
        Some(t) => trim_text(t),
        None => String::new(),
    }
}

/// A disk, from what the system says of it.
pub fn read_disk(
    device: &str,
    files: &DiskFiles,
    by_id: Option<String>,
    by_path: Option<String>,
    partition_table: PartitionTable,
) -> (out: DiskLayout)
    ensures
        out.device@ == device@,
        out.by_id == by_id,
        out.by_path == by_path,
        out.model@ == text_in(str_view(files.model)),
        out.serial@ == text_in(str_view(files.serial)),
        out.logical_block_size == number_in(
            str_view(files.logical_block_size),
            u32::MAX as nat,
            512,
        ),
        out.physical_block_size == number_in(
            str_view(files.physical_block_size),
            u32::MAX as nat,
            out.logical_block_size as nat,
        ),
        out.size_bytes == capped_product(
            number_in(str_view(files.size), u64::MAX as nat, 0),
            out.logical_block_size as nat,
        ),
        out.rotational == (files.rotational is Some && trim(files.rotational->0@) == "1"@),
        out.partition_table == partition_table,
{
    let sectors: u64 = read_number(files.size, u64::MAX, 0);
    let logical: u64 = read_number(files.logical_block_size, u32::MAX as u64, 512);
    let physical: u64 = read_number(files.physical_block_size, u32::MAX as u64, logical);
    let rotational = match files.rotational {
        Some(t) => same_text(trim_text(t).as_str(), "1"),
        None => false,
    };
    let size_bytes: u64 = match sectors.checked_mul(logical) {
        Some(n) => n,
        None => u64::MAX,
    };
    DiskLayout {
        device: copy_text(device),
        by_id,
        by_path,
        model: text_or_empty(files.model),
        serial: text_or_empty(files.serial),
        size_bytes,
        logical_block_size: logical as u32,
        physical_block_size: physical as u32,
        rotational,
        partition_table,
    }
}

/// The warnings about a GPT.
pub open spec fn gpt_warnings(device: Seq<char>, raw: Seq<u8>, parsed: bool) -> Seq<WarningFact> {
    let a = if parsed {
        Seq::<WarningFact>::empty()
    } else {
        seq![
            (
                "disk"@,
                "sgdisk parse failed on "@ + device + ": "@
                    + "sgdisk output did not contain a disk identifier or partition table"@,
                None::<Seq<char>>,
            ),
        ]
    };
    if raw.len() == 0 {
        a.push(
            (
                "disk"@,
                "sgdisk unavailable; GPT raw_dump empty for "@ + device,
                Some("install gdisk/sgdisk so restore can use the binary path"@),
            ),
        )
    } else {
        a
    }
}

/// A GPT, from the two outputs of `sgdisk`, and the warnings about it.
pub fn gpt_table(device: &str, raw_dump: Vec<u8>, print: &str) -> (out: (
    PartitionTable,
    Vec<CaptureWarning>,
))
    ensures
        ({
            let scan = sgdisk_scan(lines(print@));
            let parsed = scan.guid.len() > 0 || scan.partitions.len() > 0;
            &&& out.0 matches PartitionTable::Gpt { disk_guid, partitions, raw_dump: raw }
            &&& raw == raw_dump
            &&& disk_guid@ == scan.guid
            &&& facts(partitions@) == scan.partitions
            &&& facts(out.1@) == gpt_warnings(device@, raw_dump@, parsed)
        }),
{
    let mut warnings: Vec<CaptureWarning> = Vec::new();
    assert(facts(warnings@) =~= Seq::<WarningFact>::empty());
    let (disk_guid, partitions) = match parse_sgdisk_print(print) {
        Ok(read) => read,
        Err(e) => {
            let front = concat3("sgdisk parse failed on ", device, ": ");
            let w = CaptureWarning::new("disk", concat2(front.as_str(), e.as_str()).as_str());
            proof {
                facts_push(warnings@, w);
            }
            warnings.push(w);
            let none: Vec<GptPartition> = Vec::new();
            assert(facts(none@) =~= Seq::<GptFact>::empty());
            let blank = String::new();
            proof {
                let scan = sgdisk_scan(lines(print@));
                assert(scan.guid =~= blank@);
                assert(scan.partitions =~= facts(none@));
            }
            (blank, none)
        },
    };
    if raw_dump.len() == 0 {
        let w = CaptureWarning::new(
            "disk",
            concat2("sgdisk unavailable; GPT raw_dump empty for ", device).as_str(),
        ).with_remediation("install gdisk/sgdisk so restore can use the binary path");
        proof {
            facts_push(warnings@, w);
        }
        warnings.push(w);
    }
    assert(facts(warnings@) =~= gpt_warnings(
        device@,
        raw_dump@,
        sgdisk_scan(lines(print@)).guid.len() > 0 || sgdisk_scan(lines(print@)).partitions.len()
            > 0,
    ));
    (PartitionTable::Gpt { disk_guid, partitions, raw_dump }, warnings)
}

/// The warnings about an MBR.
pub open spec fn mbr_warnings(device: Seq<char>, sector: Seq<u8>, parsed: bool) -> Seq<
    WarningFact,
> {
    let a = if parsed {
        Seq::<WarningFact>::empty()
    } else {
        seq![
            (
                "disk"@,
                "sfdisk parse failed on "@ + device + ": "@
                    + "sfdisk output did not list any partitions"@,
                None::<Seq<char>>,
            ),
        ]
    };
    if sector.len() < 446 {
        a.push(
            ("disk"@, "could not capture MBR boot code from "@ + device, None::<Seq<char>>),
        )
    } else {
        a
    }
}

/// An MBR, from the output of `sfdisk` and the first sector, and the warnings about it.
pub fn mbr_table(device: &str, sector_0: &[u8], raw_dump: Vec<u8>, dump: &str) -> (out: (
    PartitionTable,
    Vec<CaptureWarning>,
))
    requires
        lines(dump@).len() < u32::MAX,
    ensures
        ({
            let found = picked(lines(dump@), sfdisk_rule());
            &&& out.0 matches PartitionTable::Mbr { partitions, raw_dump: raw, boot_code }
            &&& raw == raw_dump
            &&& partitions@ == numbered_partitions(found)
            &&& forall|i: int|
                0 <= i < partitions@.len() ==> (#[trigger] partitions@[i]).number == i + 1
            &&& boot_code@ == if sector_0@.len() < 446 {
                Seq::<u8>::empty()
            } else {
                sector_0@.take(446)
            }
            &&& facts(out.1@) == mbr_warnings(device@, sector_0@, found.len() > 0)
        }),
{
    let mut warnings: Vec<CaptureWarning> = Vec::new();
    assert(facts(warnings@) =~= Seq::<WarningFact>::empty());
    let partitions = match parse_sfdisk_dump(dump) {
        Ok(p) => p,
        Err(e) => {
            let front = concat3("sfdisk parse failed on ", device, ": ");
            let w = CaptureWarning::new("disk", concat2(front.as_str(), e.as_str()).as_str());
            proof {
                facts_push(warnings@, w);
            }
            warnings.push(w);
            let none: Vec<MbrPartition> = Vec::new();
            assert(none@ =~= numbered_partitions(picked(lines(dump@), sfdisk_rule())));
            none
        },
    };
    let boot_code = if sector_0.len() < 446 {
        let w = CaptureWarning::new(
            "disk",
            concat2("could not capture MBR boot code from ", device).as_str(),
        );
        proof {
            facts_push(warnings@, w);
        }
        warnings.push(w);
        Vec::new()
    } else {
        let code = copy_range(sector_0, 0, 446);
        assert(code@ =~= sector_0@.take(446));
        code
    };
    assert(facts(warnings@) =~= mbr_warnings(
        device@,
        sector_0@,
        picked(lines(dump@), sfdisk_rule()).len() > 0,
    ));
    (PartitionTable::Mbr { partitions, raw_dump, boot_code }, warnings)
}

/// The output of `sgdisk` is read line by line, from nothing known.
pub proof fn sgdisk_lines_add_up(list: Seq<Seq<char>>, line: Seq<char>)
    ensures
        sgdisk_scan(Seq::empty()).guid.len() == 0,
        sgdisk_scan(Seq::empty()).partitions.len() == 0,
        !sgdisk_scan(Seq::empty()).in_table,
        sgdisk_scan(list.push(line)) == sgdisk_step(sgdisk_scan(list), line),
{
    assert(list.push(line).drop_last() =~= list);
}

/// A line of `sfdisk` is read field by field; it is a partition where it gives a start and a size
/// that is not zero.
pub proof fn sfdisk_fields_add_up(pieces: Seq<Seq<char>>, piece: Seq<char>, line: Seq<char>)
    ensures
        sfdisk_fields(Seq::empty()) == (SfdiskFields {
            start: 0,
            size: 0,
            kind: 0,
            bootable: false,
        }),
        sfdisk_fields(pieces.push(piece)) == sfdisk_field(sfdisk_fields(pieces), piece),
        sfdisk_rule()(line) == sfdisk_line(line),
        sfdisk_line(line) matches Some(f) ==> {
            &&& f == sfdisk_fields(split_on(trim(line), ','))
            &&& f.size > 0
            &&& has_part(trim(line), ": start="@)
        },
        has_part(trim(line), ": start="@) && sfdisk_fields(split_on(trim(line), ',')).size > 0
            ==> sfdisk_line(line) is Some,
{
    assert(pieces.push(piece).drop_last() =~= pieces);
}

/// A size is sectors times their size, as far as that is representable.
pub proof fn sizes_are_products(a: nat, b: nat)
    ensures
        a * b <= u64::MAX ==> capped_product(a, b) == a * b,
        a * b > u64::MAX ==> capped_product(a, b) == u64::MAX,
{
}

/// A table is warned about where it could not be read, and where what is needed to write it again
/// could not be saved; and else not.
pub proof fn tables_are_warned_about(
    device: Seq<char>,
    raw: Seq<u8>,
    sector: Seq<u8>,
    parsed: bool,
)
    ensures
        gpt_warnings(device, raw, parsed).len() == (if parsed {
            0nat
        } else {
            1nat
        }) + (if raw.len() > 0 {
            0nat
        } else {
            1nat
        }),
        mbr_warnings(device, sector, parsed).len() == (if parsed {
            0nat
        } else {
            1nat
        }) + (if sector.len() >= 446 {
            0nat
        } else {
            1nat
        }),
        forall|i: int|
            0 <= i < gpt_warnings(device, raw, parsed).len() ==> (#[trigger] gpt_warnings(
                device,
                raw,
                parsed,
            )[i]).0 == "disk"@,
        forall|i: int|
            0 <= i < mbr_warnings(device, sector, parsed).len() ==> (#[trigger] mbr_warnings(
                device,
                sector,
                parsed,
            )[i]).0 == "disk"@,
{
}

} // verus!
