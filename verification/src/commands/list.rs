//! Showing snapshots.
use crate::catalog::rows::as_signed;
use crate::catalog::rows::signed;
use crate::primitives::human_bytes;
use crate::primitives::utc_date;
use crate::primitives::write_bytes;
use crate::primitives::write_date;
use crate::primitives::DATE_FORMAT;
use crate::text::concat2;
use crate::text::concat3;
use crate::text::copy_text;
use crate::text::texts;
use vstd::prelude::*;

verus! {

/// A text, or what stands for one that is not known.
pub open spec fn or_unknown(text: Option<Seq<char>>) -> Seq<char> {
    match text {
        Some(t) => t,
        None => "Unknown"@,
    }
}

/// The date of a snapshot.
pub open spec fn snapshot_date(timestamp: u64) -> Seq<char> {
    or_unknown(utc_date(signed(timestamp) as i64, DATE_FORMAT@))
}

/// The date of a snapshot.
pub fn date_text(timestamp: u64) -> (out: String)
    ensures
        out@ == snapshot_date(timestamp),
{
    match write_date(as_signed(timestamp), DATE_FORMAT) {
        Some(text) => text,
        None => copy_text("Unknown"),
    }
}

/// The name of the host of a snapshot.
pub open spec fn host_view(hostname: Option<&str>) -> Seq<char> {
    match hostname {
        Some(h) => h@,
        None => "Unknown"@,
    }
}

fn host_text(hostname: Option<&str>) -> (out: String)
    ensures
        out@ == host_view(hostname),
{
    match hostname {
        Some(h) => copy_text(h),
        None => copy_text("Unknown"),
    }
}

/// The cells of a snapshot in the list of snapshots: its id, date, size and host.
pub fn snapshot_row(snapshot_id: &str, timestamp: u64, size: u64, hostname: Option<&str>) -> (row:
    Vec<String>)
    ensures
        texts(row@) == seq![
            snapshot_id@,
            snapshot_date(timestamp),
            human_bytes(size),
            host_view(hostname),
        ],
{
    let mut row: Vec<String> = Vec::new();
    row.push(copy_text(snapshot_id));
    row.push(date_text(timestamp));
    row.push(write_bytes(size));
    row.push(host_text(hostname));
    assert(texts(row@) =~= seq![
        snapshot_id@,
        snapshot_date(timestamp),
        human_bytes(size),
        host_view(hostname),
    ]);
    row
}

/// The line of a snapshot where one is to be chosen.
pub fn snapshot_label(snapshot_id: &str, timestamp: u64, hostname: Option<&str>) -> (out: String)
    ensures
        out@ == snapshot_id@ + "  |  "@ + snapshot_date(timestamp) + "  |  "@ + host_view(hostname),
{
    let front = concat3(snapshot_id, "  |  ", date_text(timestamp).as_str());
    let middle = concat2(front.as_str(), "  |  ");
    concat2(middle.as_str(), host_text(hostname).as_str())
}

/// A snapshot without a date or a host is shown as unknown.
pub proof fn unknown_is_said(text: Seq<char>, timestamp: u64)
    ensures
        or_unknown(Some(text)) == text,
        or_unknown(None) == "Unknown"@,
        timestamp <= i64::MAX ==> snapshot_date(timestamp) == match utc_date(
            timestamp as i64,
            "%Y-%m-%d %H:%M:%S"@,
        ) {
            Some(date) => date,
            None => "Unknown"@,
        },
        host_view(None) == "Unknown"@,
{
}

} // verus!
