//! Block devices and sparse files as lists of the extents that hold data.
//!
//! What lies outside the extents is zeros and is not stored.
use crate::error::LazarusError;
use crate::text::copy_text;
use crate::text::decimal;
use crate::text::decimal_string;
use vstd::prelude::*;

verus! {

/// The longest extent that is read in one piece, 1 GiB.
pub const DEFAULT_MAX_EXTENT_LEN: u64 = 1073741824;

/// A run of bytes of a device.
#[derive(Debug, Clone, Copy, PartialEq, Eq, Structural)]
pub struct Extent {
    pub offset: u64,
    pub length: u64,
}

pub open spec fn capped(n: int) -> u64 {
    if n > u64::MAX {
        u64::MAX
    } else {
        n as u64
    }
}

impl Extent {
    /// Where the extent ends.
    pub open spec fn stop(self) -> int {
        self.offset + self.length
    }

    /// Whether a byte lies in the extent.
    pub open spec fn holds(self, x: int) -> bool {
        self.offset <= x < self.stop()
    }

    /// The offset behind the last byte.
    pub fn end(&self) -> (out: u64)
        ensures
            out == capped(self.stop()),
    {
        self.offset.saturating_add(self.length)
    }
}

/// Whether a byte lies in one of the extents.
pub open spec fn covered(extents: Seq<Extent>, x: int) -> bool {
    exists|i: int| 0 <= i < extents.len() && (#[trigger] extents[i]).holds(x)
}

/// Whether the extents are not empty, end at `limit` at the latest, and follow each other without
/// overlap.
pub open spec fn tidy(extents: Seq<Extent>, limit: int) -> bool {
    &&& forall|i: int|
        0 <= i < extents.len() ==> (#[trigger] extents[i]).length > 0 && extents[i].stop() <= limit
    &&& forall|i: int, j: int|
        0 <= i < j < extents.len() ==> (#[trigger] extents[i]).stop() <= (
        #[trigger] extents[j]).offset
}

/// The pieces of a run, each of `max_len` bytes but for the last.
pub open spec fn run_pieces(offset: u64, remaining: u64, max_len: u64) -> Seq<Extent>
    decreases remaining,
{
    if remaining == 0 || max_len == 0 {
        Seq::empty()
    } else {
        let take: u64 = if remaining <= max_len {
            remaining
        } else {
            max_len
        };
        seq![Extent { offset, length: take }] + run_pieces(
            capped(offset + take),
            (remaining - take) as u64,
            max_len,
        )
    }
}

/// The pieces of an extent; a short one stays whole.
pub open spec fn extent_pieces(e: Extent, max_len: u64) -> Seq<Extent> {
    if e.length <= max_len {
        seq![e]
    } else {
        run_pieces(e.offset, e.length, max_len)
    }
}

/// The pieces of all extents, in order.
pub open spec fn all_pieces(extents: Seq<Extent>, max_len: u64) -> Seq<Extent>
    decreases extents.len(),
{
    if extents.len() == 0 {
        Seq::empty()
    } else {
        all_pieces(extents.drop_last(), max_len) + extent_pieces(extents.last(), max_len)
    }
}

proof fn run_pieces_cover(offset: u64, remaining: u64, max_len: u64)
    requires
        max_len > 0,
        offset + remaining <= u64::MAX,
    ensures
        tidy(run_pieces(offset, remaining, max_len), offset + remaining),
        forall|i: int|
            0 <= i < run_pieces(offset, remaining, max_len).len() ==> (#[trigger] run_pieces(
                offset,
                remaining,
                max_len,
            )[i]).length <= max_len && run_pieces(offset, remaining, max_len)[i].offset >= offset,
        forall|x: int| #[trigger]
            covered(run_pieces(offset, remaining, max_len), x) <==> offset <= x < offset
                + remaining,
    decreases remaining,
{
    let all = run_pieces(offset, remaining, max_len);
    if remaining > 0 {
        let take: u64 = if remaining <= max_len {
            remaining
        } else {
            max_len
        };
        let head = Extent { offset, length: take };
        let rest = run_pieces((offset + take) as u64, (remaining - take) as u64, max_len);
        run_pieces_cover((offset + take) as u64, (remaining - take) as u64, max_len);
        assert(all =~= seq![head] + rest);
        assert forall|i: int| 0 <= i < all.len() implies (#[trigger] all[i]).length <= max_len
            && all[i].offset >= offset && all[i].length > 0 && all[i].stop() <= offset
            + remaining by {
            if i > 0 {
                assert(all[i] == rest[i - 1]);
            }
        }
        assert forall|i: int, j: int| 0 <= i < j < all.len() implies (#[trigger] all[i]).stop()
            <= (#[trigger] all[j]).offset by {
            assert(all[j] == rest[j - 1]);
            if i > 0 {
                assert(all[i] == rest[i - 1]);
            }
        }
        assert forall|x: int| #[trigger] covered(all, x) <==> offset <= x < offset + remaining by {
            if covered(all, x) {
                let i = choose|i: int| 0 <= i < all.len() && (#[trigger] all[i]).holds(x);
                assert(all[i].offset >= offset);
            }
            if offset <= x < offset + take {
                assert(all[0].holds(x));
            } else if offset + take <= x < offset + remaining {
                assert(covered(rest, x));
                let i = choose|i: int| 0 <= i < rest.len() && (#[trigger] rest[i]).holds(x);
                assert(all[i + 1].holds(x));
            }
        }
    } else {
        assert(all =~= Seq::<Extent>::empty());
    }
}

/// Splitting tidy extents gives tidy extents that cover the same bytes, none longer than the
/// greatest length.
pub proof fn splitting_keeps_coverage(extents: Seq<Extent>, max_len: u64, limit: int)
    requires
        max_len > 0,
        limit <= u64::MAX,
        tidy(extents, limit),
    ensures
        tidy(all_pieces(extents, max_len), limit),
        forall|i: int|
            0 <= i < all_pieces(extents, max_len).len() ==> (#[trigger] all_pieces(
                extents,
                max_len,
            )[i]).length <= max_len,
        forall|x: int| #[trigger]
            covered(all_pieces(extents, max_len), x) <==> covered(extents, x),
        extents.len() > 0 ==> forall|i: int|
            0 <= i < all_pieces(extents, max_len).len() ==> (#[trigger] all_pieces(
                extents,
                max_len,
            )[i]).stop() <= extents.last().stop(),
    decreases extents.len(),
{
    let all = all_pieces(extents, max_len);
    if extents.len() > 0 {
        let front = extents.drop_last();
        let last = extents.last();
        let a = all_pieces(front, max_len);
        let b = extent_pieces(last, max_len);
        assert(tidy(front, limit));
        splitting_keeps_coverage(front, max_len, limit);
        if last.length > max_len {
            run_pieces_cover(last.offset, last.length, max_len);
        }
        assert(last == extents[extents.len() - 1]);
        assert(all == a + b);
        assert forall|i: int| 0 <= i < b.len() implies (#[trigger] b[i]).length <= max_len
            && b[i].length > 0 && b[i].stop() <= last.stop() && b[i].offset >= last.offset by {}
        assert forall|i: int| 0 <= i < a.len() implies (#[trigger] a[i]).stop() <= last.offset by {
            if front.len() > 0 {
                assert(front.last() == extents[extents.len() - 2]);
                assert(extents[extents.len() - 2].stop() <= extents[extents.len() - 1].offset);
            }
        }
        assert forall|i: int| 0 <= i < all.len() implies (#[trigger] all[i]).length > 0
            && all[i].stop() <= limit && all[i].length <= max_len && all[i].stop()
            <= last.stop() by {
            if i < a.len() {
                assert(all[i] == a[i]);
            } else {
                assert(all[i] == b[i - a.len()]);
            }
        }
        assert forall|i: int, j: int| 0 <= i < j < all.len() implies (#[trigger] all[i]).stop()
            <= (#[trigger] all[j]).offset by {
            if j < a.len() {
                assert(all[i] == a[i] && all[j] == a[j]);
            } else if i < a.len() {
                assert(all[i] == a[i] && all[j] == b[j - a.len()]);
            } else {
                assert(all[i] == b[i - a.len()] && all[j] == b[j - a.len()]);
            }
        }
        assert forall|x: int| #[trigger] covered(all, x) <==> covered(extents, x) by {
            if covered(all, x) {
                let i = choose|i: int| 0 <= i < all.len() && (#[trigger] all[i]).holds(x);
                if i < a.len() {
                    assert(a[i].holds(x));
                    assert(covered(a, x));
                    let k = choose|k: int| 0 <= k < front.len() && (#[trigger] front[k]).holds(x);
                    assert(extents[k].holds(x));
                } else {
                    assert(b[i - a.len()].holds(x));
                    assert(extents[extents.len() - 1].holds(x));
                }
            }
            if covered(extents, x) {
                let k = choose|k: int| 0 <= k < extents.len() && (#[trigger] extents[k]).holds(x);
                if k < front.len() {
                    assert(front[k].holds(x));
                    assert(covered(a, x));
                    let i = choose|i: int| 0 <= i < a.len() && (#[trigger] a[i]).holds(x);
                    assert(all[i].holds(x));
                } else if last.length > max_len {
                    assert(covered(b, x));
                    let i = choose|i: int| 0 <= i < b.len() && (#[trigger] b[i]).holds(x);
                    assert(all[i + a.len()].holds(x));
                } else {
                    assert(b[0].holds(x));
                    assert(all[a.len() as int].holds(x));
                }
            }
        }
    } else {
        assert(all =~= Seq::<Extent>::empty());
    }
}

/// Splits the extents so that none is longer than `max_len`.
pub fn split_extents(extents: Vec<Extent>, max_len: u64) -> (out: Vec<Extent>)
    requires
        max_len > 0,
    ensures
        out@ == all_pieces(extents@, max_len),
{
    let mut out: Vec<Extent> = Vec::new();
    let mut i: usize = 0;
    assert(extents@.take(0) =~= Seq::<Extent>::empty());
    while i < extents.len()
        invariant
            i <= extents@.len(),
            max_len > 0,
            out@ == all_pieces(extents@.take(i as int), max_len),
        decreases extents@.len() - i,
    {
        let ext = extents[i];
        let ghost front = out@;
        proof {
            assert(extents@.take(i as int + 1).drop_last() =~= extents@.take(i as int));
        }
        if ext.length <= max_len {
            out.push(ext);
            assert(out@ =~= front + extent_pieces(ext, max_len));
        } else {
            let mut remaining: u64 = ext.length;
            let mut offset: u64 = ext.offset;
            assert(out@ + run_pieces(offset, remaining, max_len) =~= front + extent_pieces(
                ext,
                max_len,
            ));
            while remaining > 0
                invariant
                    max_len > 0,
                    out@ + run_pieces(offset, remaining, max_len) == front + extent_pieces(
                        ext,
                        max_len,
                    ),
                decreases remaining,
            {
                let take: u64 = if remaining <= max_len {
                    remaining
                } else {
                    max_len
                };
                let ghost was = out@;
                let ghost piece = Extent { offset, length: take };
                let ghost rest = run_pieces(
                    capped(offset + take),
                    (remaining - take) as u64,
                    max_len,
                );
                assert(was + (seq![piece] + rest) =~= was.push(piece) + rest);
                out.push(Extent { offset, length: take });
                offset = offset.saturating_add(take);
                remaining = remaining - take;
            }
            assert(out@ + Seq::<Extent>::empty() =~= out@);
        }
        i += 1;
    }
    assert(extents@.take(i as int) =~= extents@);
    out
}

/// The next question of a scan to the operating system.
#[derive(Debug, Clone, Copy, PartialEq, Eq, Structural)]
pub enum SeekRequest {
    /// Where is the first data at or behind this offset?
    Data(i64),
    /// Where is the first hole at or behind this offset?
    Hole(i64),
}

/// What the operating system answered.
#[derive(Debug, Clone, Copy, PartialEq, Eq, Structural)]
pub enum SeekReply {
    At(i64),
    /// There is no data any more.
    NoData,
    Failed,
}

/// A scan for the extents of a device, driven by the answers of the operating system.
pub struct ExtentScan {
    pub max: i64,
    /// Where the next search starts.
    pub cursor: i64,
    /// Where the data starts whose end is searched.
    pub data_start: Option<i64>,
    pub done: bool,
    pub extents: Vec<Extent>,
}

/// The end of the data that starts at `data_start`.
pub open spec fn region_end(max: i64, reply: SeekReply) -> i64 {
    match reply {
        SeekReply::At(p) => if p < 0 || p > max {
            max
        } else {
            p
        },
        _ => max,
    }
}

impl ExtentScan {
    pub open spec fn wf(&self) -> bool {
        &&& 0 <= self.cursor <= self.max
        &&& self.data_start matches Some(d) ==> 0 <= d < self.max
    }

    pub fn new(size: u64) -> (out: Self)
        ensures
            out.wf(),
            out.max == if size <= i64::MAX {
                size as int
            } else {
                i64::MAX as int
            },
            out.cursor == 0,
            out.data_start is None,
            !out.done,
            out.extents@.len() == 0,
    {
        let max: i64 = if size <= 0x7fff_ffff_ffff_ffff {
            size as i64
        } else {
            0x7fff_ffff_ffff_ffff
        };
        ExtentScan { max, cursor: 0, data_start: None, done: false, extents: Vec::new() }
    }

    /// What has to be asked next, or `None` when the scan is over.
    pub fn request(&self) -> (out: Option<SeekRequest>)
        ensures
            out == (if self.done {
                None
            } else {
                match self.data_start {
                    None => Some(SeekRequest::Data(self.cursor)),
                    Some(d) => Some(SeekRequest::Hole(d)),
                }
            }),
    {
        if self.done {
            None
        } else {
            match self.data_start {
                None => Some(SeekRequest::Data(self.cursor)),
                Some(d) => Some(SeekRequest::Hole(d)),
            }
        }
    }

    /// Takes an answer. `false` means that the scan has failed and its extents are void.
    pub fn answer(&mut self, reply: SeekReply) -> (ok: bool)
        requires
            old(self).wf(),
            !old(self).done,
        ensures
            final(self).wf(),
            final(self).max == old(self).max,
            old(self).data_start is None ==> {
                &&& final(self).extents@ == old(self).extents@
                &&& final(self).cursor == old(self).cursor
                &&& match reply {
                    SeekReply::NoData => ok && final(self).done && final(self).data_start is None,
                    SeekReply::At(p) => if p < 0 {
                        !ok
                    } else if p >= old(self).max {
                        ok && final(self).done && final(self).data_start is None
                    } else {
                        ok && !final(self).done && final(self).data_start == Some(p)
                    },
                    SeekReply::Failed => !ok,
                }
            },
            old(self).data_start matches Some(d) ==> {
                let end = region_end(old(self).max, reply);
                &&& ok
                &&& final(self).data_start is None
                &&& if end <= d {
                    &&& final(self).done
                    &&& final(self).extents@ == old(self).extents@
                    &&& final(self).cursor == old(self).cursor
                } else {
                    &&& final(self).done == (end >= old(self).max)
                    &&& final(self).cursor == end
                    &&& final(self).extents@ == old(self).extents@.push(
                        Extent { offset: d as u64, length: (end - d) as u64 },
                    )
                }
            },
    {
        match self.data_start {
            None => match reply {
                SeekReply::NoData => {
                    self.done = true;
                    true
                },
                SeekReply::Failed => {
                    self.done = true;
                    false
                },
                SeekReply::At(p) => {
                    if p < 0 {
                        self.done = true;
                        false
                    } else if p >= self.max {
                        self.done = true;
                        true
                    } else {
                        self.data_start = Some(p);
                        true
                    }
                },
            },
            Some(d) => {
                let end: i64 = match reply {
                    SeekReply::At(p) => if p < 0 || p > self.max {
                        self.max
                    } else {
                        p
                    },
                    SeekReply::NoData => self.max,
                    SeekReply::Failed => self.max,
                };
                self.data_start = None;
                if end <= d {
                    self.done = true;
                } else {
                    self.extents.push(Extent { offset: d as u64, length: (end - d) as u64 });
                    self.cursor = end;
                    if end >= self.max {
                        self.done = true;
                    }
                }
                true
            },
        }
    }

    /// How far the scan has looked.
    pub open spec fn looked(&self) -> int {
        if self.done {
            self.max as int
        } else {
            match self.data_start {
                Some(d) => d as int,
                None => self.cursor as int,
            }
        }
    }

    /// Whether the extents are tidy and cover exactly the data that the scan has passed.
    pub open spec fn matches_device(&self, data: spec_fn(int) -> bool) -> bool {
        &&& self.wf()
        &&& self.cursor <= self.looked()
        &&& tidy(self.extents@, self.cursor as int)
        &&& forall|x: int|
            0 <= x < self.looked() ==> (#[trigger] covered(self.extents@, x) <==> data(x))
    }
}

/// Whether an answer is true of a device of `max` bytes.
pub open spec fn truthful(
    data: spec_fn(int) -> bool,
    max: i64,
    request: SeekRequest,
    reply: SeekReply,
) -> bool {
    match (request, reply) {
        (SeekRequest::Data(from), SeekReply::At(p)) => {
            &&& from <= p
            &&& forall|x: int| from <= x < p && x < max ==> !#[trigger] data(x)
        },
        (SeekRequest::Data(from), SeekReply::NoData) => forall|x: int|
            from <= x < max ==> !#[trigger] data(x),
        (SeekRequest::Hole(from), SeekReply::At(p)) => {
            &&& from < p
            &&& forall|x: int| from <= x < p && x < max ==> #[trigger] data(x)
        },
        _ => false,
    }
}

/// As long as the operating system answers truly, the scan keeps tidy extents that cover exactly
/// the data it has passed; when it is over, that is all data of the device.
pub proof fn scan_step_is_faithful(
    before: ExtentScan,
    after: ExtentScan,
    reply: SeekReply,
    data: spec_fn(int) -> bool,
)
    requires
        before.matches_device(data),
        !before.done,
        truthful(
            data,
            before.max,
            match before.data_start {
                None => SeekRequest::Data(before.cursor),
                Some(d) => SeekRequest::Hole(d),
            },
            reply,
        ),
        after.wf(),
        after.max == before.max,
        before.data_start is None ==> {
            &&& after.extents@ == before.extents@
            &&& after.cursor == before.cursor
            &&& match reply {
                SeekReply::NoData => after.done && after.data_start is None,
                SeekReply::At(p) => if p >= before.max {
                    after.done && after.data_start is None
                } else {
                    !after.done && after.data_start == Some(p)
                },
                SeekReply::Failed => false,
            }
        },
        before.data_start matches Some(d) ==> {
            let end = region_end(before.max, reply);
            &&& after.data_start is None
            &&& end > d
            &&& after.done == (end >= before.max)
            &&& after.cursor == end
            &&& after.extents@ == before.extents@.push(
                Extent { offset: d as u64, length: (end - d) as u64 },
            )
        },
    ensures
        after.matches_device(data),
        after.done ==> forall|x: int|
            0 <= x < after.max ==> (#[trigger] covered(after.extents@, x) <==> data(x)),
{
    match before.data_start {
        None => {
            assert forall|x: int| 0 <= x < after.looked() implies (#[trigger] covered(
                after.extents@,
                x,
            ) <==> data(x)) by {
                if x >= before.looked() {
                    if covered(after.extents@, x) {
                        let i = choose|i: int|
                            0 <= i < after.extents@.len() && (#[trigger] after.extents@[i]).holds(
                                x,
                            );
                        assert(after.extents@[i].stop() <= before.cursor);
                    }
                }
            }
        },
        Some(d) => {
            let end = region_end(before.max, reply);
            let piece = Extent { offset: d as u64, length: (end - d) as u64 };
            let old_list = before.extents@;
            let new_list = after.extents@;
            assert(tidy(new_list, after.cursor as int)) by {
                assert forall|i: int| 0 <= i < new_list.len() implies (
                #[trigger] new_list[i]).length > 0 && new_list[i].stop() <= after.cursor by {
                    if i < old_list.len() {
                        assert(new_list[i] == old_list[i]);
                    }
                }
                assert forall|i: int, j: int| 0 <= i < j < new_list.len() implies (
                #[trigger] new_list[i]).stop() <= (#[trigger] new_list[j]).offset by {
                    assert(new_list[i] == old_list[i]);
                    if j < old_list.len() {
                        assert(new_list[j] == old_list[j]);
                    }
                }
            }
            assert forall|x: int| 0 <= x < after.looked() implies (#[trigger] covered(new_list, x)
                <==> data(x)) by {
                if x < d {
                    if covered(new_list, x) {
                        let i = choose|i: int|
                            0 <= i < new_list.len() && (#[trigger] new_list[i]).holds(x);
                        assert(old_list[i].holds(x));
                        assert(covered(old_list, x));
                    }
                    if data(x) {
                        assert(covered(old_list, x));
                        let i = choose|i: int|
                            0 <= i < old_list.len() && (#[trigger] old_list[i]).holds(x);
                        assert(new_list[i].holds(x));
                    }
                } else {
                    assert(new_list[old_list.len() as int].holds(x));
                }
            }
        },
    }
}

/// The text of an extent in a message.
pub open spec fn extent_text(e: Extent) -> Seq<char> {
    "Extent { offset: "@ + decimal(e.offset as nat) + ", length: "@ + decimal(e.length as nat)
        + " }"@
}

fn extent_string(e: &Extent) -> (out: String)
    ensures
        out@ == extent_text(*e),
{
    let mut out: String = copy_text("Extent { offset: ");
    out.append(decimal_string(e.offset).as_str());
    out.append(", length: ");
    out.append(decimal_string(e.length).as_str());
    out.append(" }");
    out
}

/// The geometry of an opened device or file.
#[derive(Debug)]
pub struct BlockDeviceReader {
    path: String,
    size: u64,
    max_extent_len: u64,
}

impl BlockDeviceReader {
    pub closed spec fn device_path(&self) -> Seq<char> {
        self.path@
    }

    pub closed spec fn device_size(&self) -> u64 {
        self.size
    }

    pub closed spec fn max_extent(&self) -> u64 {
        self.max_extent_len
    }

    /// Extents have a greatest length.
    pub open spec fn wf(&self) -> bool {
        self.max_extent() > 0
    }

    /// A device of the given size, read in extents of at most the default length.
    pub fn open(path: &str, size: u64) -> (out: Self)
        ensures
            out.wf(),
            out.device_path() == path@,
            out.device_size() == size,
            out.max_extent() == DEFAULT_MAX_EXTENT_LEN,
    {
        BlockDeviceReader {
            path: copy_text(path),
            size,
            max_extent_len: DEFAULT_MAX_EXTENT_LEN,
        }
    }

    /// A device of the given size, read in extents of at most the given length.
    pub fn open_with_max_extent(path: &str, size: u64, max_extent_len: u64) -> (out: Result<
        Self,
        LazarusError,
    >)
        ensures
            out is Err <==> max_extent_len == 0,
            match out {
                Ok(r) => {
                    &&& r.wf()
                    &&& r.device_path() == path@
                    &&& r.device_size() == size
                    &&& r.max_extent() == max_extent_len
                },
                Err(e) => e is Storage && e.detail() == "max_extent_len must be > 0"@,
            },
    {
        if max_extent_len == 0 {
            return Err(LazarusError::Storage(copy_text("max_extent_len must be > 0")));
        }
        Ok(BlockDeviceReader { path: copy_text(path), size, max_extent_len })
    }

    pub fn size(&self) -> (out: u64)
        ensures
            out == self.device_size(),
    {
        self.size
    }

    pub fn path(&self) -> (out: &str)
        ensures
            out@ == self.device_path(),
    {
        self.path.as_str()
    }

    /// The extents to read: those that a scan found, or the whole device where there is no scan.
    pub fn used_extents(&self, scanned: Option<Vec<Extent>>) -> (out: Vec<Extent>)
        requires
            self.wf(),
        ensures
            out@ == if self.device_size() == 0 {
                Seq::empty()
            } else {
                all_pieces(
                    match scanned {
                        Some(raw) => raw@,
                        None => seq![Extent { offset: 0, length: self.device_size() }],
                    },
                    self.max_extent(),
                )
            },
    {
        if self.size == 0 {
            return Vec::new();
        }
        match scanned {
            Some(raw) => split_extents(raw, self.max_extent_len),
            None => {
                let mut whole: Vec<Extent> = Vec::new();
                whole.push(Extent { offset: 0, length: self.size });
                assert(whole@ =~= seq![Extent { offset: 0, length: self.size }]);
                split_extents(whole, self.max_extent_len)
            },
        }
    }

    /// How many bytes to read from the offset of an extent; it fails for one that does not lie
    /// within the device or does not fit into memory.
    pub fn read_extent(&self, extent: &Extent) -> (out: Result<usize, LazarusError>)
        ensures
            out matches Ok(n) ==> n == extent.length && (n == 0 || capped(extent.stop())
                <= self.device_size()),
            out matches Err(e) ==> {
                &&& e is Storage
                &&& extent.length > 0
                &&& if capped(extent.stop()) > self.device_size() {
                    e.detail() == "extent "@ + extent_text(*extent) + " extends past device size "@
                        + decimal(self.device_size() as nat)
                } else {
                    extent.length > usize::MAX && e.detail() == "extent length "@ + decimal(
                        extent.length as nat,
                    ) + " too large for this platform"@
                }
            },
            extent.length == 0 ==> out is Ok,
            0 < extent.length && capped(extent.stop()) <= self.device_size() && extent.length
                <= usize::MAX ==> out is Ok,
    {
        if extent.length == 0 {
            return Ok(0);
        }
        if extent.end() > self.size {
            let mut m: String = copy_text("extent ");
            m.append(extent_string(extent).as_str());
            m.append(" extends past device size ");
            m.append(decimal_string(self.size).as_str());
            return Err(LazarusError::Storage(m));
        }
        if extent.length > usize::MAX as u64 {
            let mut m: String = copy_text("extent length ");
            m.append(decimal_string(extent.length).as_str());
            m.append(" too large for this platform");
            return Err(LazarusError::Storage(m));
        }
        Ok(extent.length as usize)
    }
}

/// An extent is read at once, so it has at most a gibibyte unless another limit is set.
pub proof fn extents_are_limited()
    ensures
        DEFAULT_MAX_EXTENT_LEN == 1024 * 1024 * 1024,
{
}

/// A byte is covered where it lies between the offset of an extent and its length behind that.
pub proof fn extents_cover_their_bytes(extents: Seq<Extent>, x: int)
    ensures
        covered(extents, x) <==> exists|i: int|
            0 <= i < extents.len() && (#[trigger] extents[i]).offset <= x && x < extents[i].offset
                + extents[i].length,
{
    if covered(extents, x) {
        let i = choose|i: int| 0 <= i < extents.len() && (#[trigger] extents[i]).holds(x);
        assert(extents[i].offset <= x);
    }
    if exists|i: int|
        0 <= i < extents.len() && (#[trigger] extents[i]).offset <= x && x < extents[i].offset
            + extents[i].length {
        let i = choose|i: int|
            0 <= i < extents.len() && (#[trigger] extents[i]).offset <= x && x < extents[i].offset
                + extents[i].length;
        assert(extents[i].holds(x));
    }
}

/// Data ends at the hole that was found on the device; where none was found it goes on to the end.
pub proof fn data_ends_at_holes(max: i64, p: i64)
    ensures
        0 <= p <= max ==> region_end(max, SeekReply::At(p)) == p,
        p < 0 || p > max ==> region_end(max, SeekReply::At(p)) == max,
        region_end(max, SeekReply::NoData) == max,
        region_end(max, SeekReply::Failed) == max,
{
}

/// An extent that is short enough stays whole; a longer one comes apart into pieces that start with
/// its own start.
pub proof fn short_extents_stay_whole(e: Extent, max_len: u64)
    requires
        max_len > 0,
    ensures
        e.length <= max_len ==> extent_pieces(e, max_len) == seq![e],
        e.length > max_len ==> extent_pieces(e, max_len)[0] == (Extent {
            offset: e.offset,
            length: max_len,
        }),
{
}

} // verus!
