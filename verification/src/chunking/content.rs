//! What content-defined cuts depend on: a cut lies where the bytes before it say so, whatever
//! stands in front of them.
use crate::chunking::cdc::all_scannable;
use crate::chunking::cdc::boundary;
use crate::chunking::cdc::cdc_chunks;
use crate::chunking::cdc::chunk_end;
use crate::chunking::cdc::chunk_end_bounds;
use crate::chunking::cdc::cut_behind;
use crate::chunking::cdc::first_cut;
use crate::chunking::cdc::gear;
use crate::chunking::cdc::roll;
use crate::chunking::cdc::rolled;
use crate::chunking::cdc::scannable;
use crate::chunking::cdc::GEAR;
use vstd::arithmetic::power2::lemma2_to64;
use vstd::arithmetic::power2::lemma_pow2_unfold;
use vstd::arithmetic::power2::pow2;
use vstd::prelude::*;

verus! {

/// What a byte weighs: its number in the table. The table ends at 251; the bytes behind it weigh
/// nothing.
pub open spec fn weight(b: u8) -> int {
    if b < 252 {
        GEAR@[b as int] as int
    } else {
        0
    }
}

/// The weights of the last `n` bytes before `end`, each doubled once for every byte behind it.
pub open spec fn window_sum(data: Seq<u8>, end: int, n: nat) -> int
    decreases n,
{
    if n == 0 {
        0
    } else {
        window_sum(data, end, (n - 1) as nat) + weight(data[end - n]) * pow2((n - 1) as nat)
    }
}

/// The hash of the 64 bytes before `end`, in 64 bits.
pub open spec fn window_hash(data: Seq<u8>, end: int) -> u64 {
    (window_sum(data, end, 64) % 0x1_0000_0000_0000_0000) as u64
}

/// Whether `cut` is where the content ends the chunk that starts at `start`: the first place more
/// than 2048 bytes behind the start whose hash has no bit of the mask set, but 16384 bytes behind
/// the start at the latest, and not behind the end.
pub open spec fn content_cut(data: Seq<u8>, mask: u64, start: int, cut: int) -> bool {
    &&& start < cut <= data.len()
    &&& cut - start <= 16384
    &&& cut == data.len() || cut - start == 16384 || (cut - start > 2048 && window_hash(data, cut)
        & mask == 0)
    &&& forall|p: int|
        start + 2048 < p < cut ==> #[trigger] window_hash(data, p) & mask != 0
}

proof fn rolled_is_doubled(h: u64, b: u8)
    ensures
        roll(h, b) == (2 * h + weight(b)) % 0x1_0000_0000_0000_0000,
{
    let d: u64 = h << 1u64;
    if h < 0x8000_0000_0000_0000 {
        assert(d == h * 2) by (bit_vector)
            requires
                d == h << 1u64,
                h < 0x8000_0000_0000_0000,
        ;
    } else {
        assert(d == h * 2 - 0x1_0000_0000_0000_0000) by (bit_vector)
            requires
                d == h << 1u64,
                h >= 0x8000_0000_0000_0000,
        ;
    }
    assert(gear(b) == weight(b));
}

proof fn window_sum_steps(data: Seq<u8>, end: int, n: nat)
    ensures
        window_sum(data, end, n + 1) == 2 * window_sum(data, end - 1, n) + weight(data[end - 1]),
    decreases n,
{
    lemma2_to64();
    if n == 0 {
        assert(window_sum(data, end, 1) == window_sum(data, end, 0) + weight(data[end - 1]) * pow2(
            0,
        ));
        assert(window_sum(data, end, 0) == 0);
        assert(window_sum(data, end - 1, 0) == 0);
    } else {
        window_sum_steps(data, end, (n - 1) as nat);
        lemma_pow2_unfold(n);
        let w = weight(data[end - n - 1]);
        assert(window_sum(data, end, n + 1) == window_sum(data, end, n) + w * pow2(n));
        assert(window_sum(data, end - 1, n) == window_sum(data, end - 1, (n - 1) as nat) + w * pow2(
            (n - 1) as nat,
        ));
        let p = pow2((n - 1) as nat) as int;
        assert(w * (2 * p) == 2 * (w * p)) by (nonlinear_arith);
    }
}

proof fn rolled_is_sum(data: Seq<u8>, from: int, to: int)
    requires
        from <= to,
    ensures
        rolled(data, from, to) == window_sum(data, to, (to - from) as nat)
            % 0x1_0000_0000_0000_0000,
    decreases to - from,
{
    if from < to {
        let n = (to - 1 - from) as nat;
        rolled_is_sum(data, from, to - 1);
        window_sum_steps(data, to, n);
        let h = rolled(data, from, to - 1);
        let s = window_sum(data, to - 1, n);
        let w = weight(data[to - 1]);
        rolled_is_doubled(h, data[to - 1]);
        let q = s / 0x1_0000_0000_0000_0000;
        assert(s == q * 0x1_0000_0000_0000_0000 + h);
        assert((2 * h + w) % 0x1_0000_0000_0000_0000 == (2 * s + w) % 0x1_0000_0000_0000_0000) by {
            vstd::arithmetic::div_mod::lemma_mod_multiples_vanish(
                2 * q,
                2 * h + w,
                0x1_0000_0000_0000_0000,
            );
            assert(0x1_0000_0000_0000_0000 * (2 * q) + (2 * h + w) == 2 * s + w);
        }
        assert((n + 1) as nat == (to - from) as nat);
    }
}

proof fn old_bytes_vanish(data: Seq<u8>, end: int, n: nat)
    requires
        n >= 64,
    ensures
        window_sum(data, end, n) % 0x1_0000_0000_0000_0000 == window_sum(data, end, 64)
            % 0x1_0000_0000_0000_0000,
    decreases n,
{
    if n > 64 {
        old_bytes_vanish(data, end, (n - 1) as nat);
        lemma2_to64();
        let w = weight(data[end - n]);
        let s = window_sum(data, end, (n - 1) as nat);
        vstd::arithmetic::power2::lemma_pow2_adds(64, (n - 65) as nat);
        let r = pow2((n - 65) as nat) as int;
        assert(pow2((n - 1) as nat) == 0x1_0000_0000_0000_0000 * r);
        assert(w * (0x1_0000_0000_0000_0000 * r) == 0x1_0000_0000_0000_0000 * (w * r))
            by (nonlinear_arith);
        vstd::arithmetic::div_mod::lemma_mod_multiples_vanish(w * r, s, 0x1_0000_0000_0000_0000);
    }
}

proof fn rolled_is_window_hash(data: Seq<u8>, from: int, to: int)
    requires
        to - from >= 64,
    ensures
        rolled(data, from, to) == window_hash(data, to),
{
    rolled_is_sum(data, from, to);
    old_bytes_vanish(data, to, (to - from) as nat);
}

proof fn first_cut_is_content(data: Seq<u8>, mask: u64, from: int, i: int, end: int)
    requires
        i - from >= 64,
        i <= end,
    ensures
        ({
            let cut = first_cut(data, mask, from, i, end);
            &&& i <= cut <= end
            &&& i < end ==> i < cut
            &&& cut == end || window_hash(data, cut) & mask == 0
            &&& forall|p: int| i < p < cut ==> #[trigger] window_hash(data, p) & mask != 0
        }),
    decreases end - i,
{
    if i < end {
        rolled_is_window_hash(data, from, i + 1);
        first_cut_is_content(data, mask, from, i + 1, end);
        assert(cut_behind(data, mask, from, i) <==> window_hash(data, i + 1) & mask == 0);
    }
}

proof fn boundary_is_content(data: Seq<u8>, mask: u64, start: int)
    requires
        0 <= start < data.len(),
    ensures
        content_cut(data, mask, start, boundary(data, mask, start)),
{
    if start + 2048 < data.len() {
        let end = if start + 16384 < data.len() {
            start + 16384
        } else {
            data.len() as int
        };
        first_cut_is_content(data, mask, start + 2048 - 64, start + 2048, end);
    }
}

/// The content leaves no choice: a chunk has one end.
pub proof fn one_content_cut(data: Seq<u8>, mask: u64, start: int, a: int, b: int)
    requires
        content_cut(data, mask, start, a),
        content_cut(data, mask, start, b),
    ensures
        a == b,
{
    if a < b {
        assert(window_hash(data, a) & mask == 0);
    }
    if b < a {
        assert(window_hash(data, b) & mask == 0);
    }
}

/// Every chunk ends where the content says. Only where that would leave a rest of less than 2048
/// bytes does the end move: to the end of the data where the chunk stays within 16384 bytes, and
/// else back, so that the rest has 2048 bytes.
pub proof fn cuts_follow_the_content(data: Seq<u8>, mask: u64, start: int)
    requires
        0 <= start < data.len(),
        start == 0 || data.len() - start >= 2048,
    ensures
        exists|cut: int| #[trigger]
            content_cut(data, mask, start, cut) && chunk_end(data, mask, start) == (if data.len()
                - 2048 < cut < data.len() {
                if data.len() - start <= 16384 {
                    data.len() as int
                } else {
                    data.len() - 2048
                }
            } else {
                cut
            }),
        ({
            let end = chunk_end(data, mask, start);
            data.len() - end > 2048 ==> {
                &&& end - start == 16384 || window_hash(data, end) & mask == 0
                &&& end - start > 2048
                &&& forall|p: int|
                    start + 2048 < p < end ==> #[trigger] window_hash(data, p) & mask != 0
            }
        }),
{
    boundary_is_content(data, mask, start);
    chunk_end_bounds(data, mask, start);
}

// --- Runs of one byte ------------------------------------------------------------------------

proof fn run_sum(data: Seq<u8>, end: int, n: nat, b: u8)
    requires
        n <= end <= data.len(),
        forall|i: int| end - n <= i < end ==> #[trigger] data[i] == b,
    ensures
        window_sum(data, end, n) == weight(b) * (pow2(n) - 1),
    decreases n,
{
    lemma2_to64();
    let w = weight(b);
    if n > 0 {
        run_sum(data, end, (n - 1) as nat, b);
        lemma_pow2_unfold(n);
        let p = pow2((n - 1) as nat) as int;
        assert(data[end - n] == b);
        assert(w * (p - 1) + w * p == w * (2 * p - 1)) by (nonlinear_arith);
    } else {
        assert(w * (pow2(0) - 1) == 0);
    }
}

/// In zeros the content has no cut: they are cut into chunks of 16384 bytes.
pub proof fn zeros_are_cut_at_the_greatest_size(data: Seq<u8>, start: int)
    requires
        0 <= start < data.len(),
        data.len() - start >= 16384 + 2048,
        forall|i: int| 0 <= i < data.len() ==> #[trigger] data[i] == 0,
    ensures
        chunk_end(data, 0x0000d90003530000, start) == start + 16384,
{
    let mask = 0x0000d90003530000u64;
    cuts_follow_the_content(data, mask, start);
    let cut = choose|cut: int| #[trigger]
        content_cut(data, mask, start, cut) && chunk_end(data, mask, start) == (if data.len() - 2048
            < cut < data.len() {
            if data.len() - start <= 16384 {
                data.len() as int
            } else {
                data.len() - 2048
            }
        } else {
            cut
        });
    if cut - start > 2048 && cut - start < 16384 {
        run_sum(data, cut, 64, 0);
        lemma2_to64();
        assert(weight(0) == 0x5c95c078);
        assert((0x5c95c078 * 0xffff_ffff_ffff_ffff) % 0x1_0000_0000_0000_0000
            == 0xffff_ffff_a36a_3f88);
        assert(0xffff_ffff_a36a_3f88u64 & 0x0000d90003530000u64 != 0) by (bit_vector);
    }
}

// --- After an edit ---------------------------------------------------------------------------

proof fn rolled_moves(data: Seq<u8>, by: int, from: int, to: int)
    requires
        0 <= by,
        0 <= from,
        by + to <= data.len(),
    ensures
        rolled(data, by + from, by + to) == rolled(data.skip(by), from, to),
    decreases to - from,
{
    if from < to {
        rolled_moves(data, by, from, to - 1);
        assert(data.skip(by)[to - 1] == data[by + to - 1]);
    }
}

proof fn first_cut_moves(data: Seq<u8>, mask: u64, by: int, from: int, i: int, end: int)
    requires
        0 <= by,
        0 <= from <= i,
        by + end <= data.len(),
    ensures
        first_cut(data, mask, by + from, by + i, by + end) == by + first_cut(
            data.skip(by),
            mask,
            from,
            i,
            end,
        ),
    decreases end - i,
{
    if i < end {
        rolled_moves(data, by, from, i + 1);
        assert(by + (i + 1) == by + i + 1);
        first_cut_moves(data, mask, by, from, i + 1, end);
        assert(cut_behind(data, mask, by + from, by + i) == cut_behind(data.skip(by), mask, from, i));
    }
}

proof fn end_moves(data: Seq<u8>, mask: u64, by: int, start: int)
    requires
        0 <= by,
        0 <= start,
        by + start < data.len(),
    ensures
        chunk_end(data, mask, by + start) == by + chunk_end(data.skip(by), mask, start),
{
    let rest = data.skip(by);
    if start + 2048 < rest.len() {
        let end = if start + 16384 < rest.len() {
            start + 16384
        } else {
            rest.len() as int
        };
        first_cut_moves(data, mask, by, start + 2048 - 64, start + 2048, end);
        assert(by + (start + 2048 - 64) == by + start + 2048 - 64);
        assert(by + (start + 2048) == by + start + 2048);
    }
}

proof fn chunks_move(data: Seq<u8>, mask: u64, by: int, start: int)
    requires
        0 <= by,
        0 <= start,
        by + start <= data.len(),
    ensures
        cdc_chunks(data, mask, by + start) == cdc_chunks(data.skip(by), mask, start),
    decreases data.len() - by - start,
{
    if by + start < data.len() {
        let rest = data.skip(by);
        end_moves(data, mask, by, start);
        let end = chunk_end(rest, mask, start);
        if start < end <= rest.len() {
            chunks_move(data, mask, by, end);
            assert(data.subrange(by + start, by + end) =~= rest.subrange(start, end));
        }
    }
}

/// An edit moves no cut behind the next cut that both versions have: where two inputs agree from a
/// cut of each on, all their chunks from there on are equal, whatever stands before.
pub proof fn chunks_meet_again(a: Seq<u8>, b: Seq<u8>, mask: u64, i: int, j: int)
    requires
        0 <= i <= a.len(),
        0 <= j <= b.len(),
        a.skip(i) == b.skip(j),
    ensures
        cdc_chunks(a, mask, i) == cdc_chunks(b, mask, j),
{
    chunks_move(a, mask, i, 0);
    chunks_move(b, mask, j, 0);
}

// --- What can be cut -------------------------------------------------------------------------

/// Data whose bytes all have an entry in the table can be cut; where a search meets a byte without
/// one, it cannot.
pub proof fn bytes_of_the_table_can_be_cut(data: Seq<u8>, mask: u64, start: int)
    requires
        0 <= start <= data.len(),
        start == 0 || start == data.len() || data.len() - start >= 2048,
        forall|i: int| start <= i < data.len() ==> #[trigger] data[i] < 252,
    ensures
        all_scannable(data, mask, start),
    decreases data.len() - start,
{
    if start < data.len() {
        chunk_end_bounds(data, mask, start);
        boundary_is_content(data, mask, start);
        let end = chunk_end(data, mask, start);
        assert(scannable(data, mask, start)) by {
            assert forall|i: int|
                start + 2048 - 64 <= i < boundary(data, mask, start) implies (#[trigger] data[i])
                < 252 by {}
        }
        bytes_of_the_table_can_be_cut(data, mask, end);
    }
}

/// A search that meets a byte behind the end of the table does not come to an end.
pub proof fn other_bytes_cannot_be_cut(data: Seq<u8>, mask: u64, start: int, i: int)
    requires
        0 <= start < data.len(),
        start + 2048 < data.len(),
        start + 1984 <= i <= start + 2048,
        data[i] >= 252,
    ensures
        !all_scannable(data, mask, start),
{
    boundary_is_content(data, mask, start);
    assert(i < boundary(data, mask, start));
}

} // verus!
