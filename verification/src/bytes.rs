//! Byte-string helpers: comparison, concatenation, little-endian integers and hexadecimal text.
use vstd::prelude::*;

verus! {

/// The little-endian encoding of a 32-bit number.
pub open spec fn le32(x: u32) -> Seq<u8> {
    seq![
        (x as int % 256) as u8,
        (x as int / 256 % 256) as u8,
        (x as int / 65536 % 256) as u8,
        (x as int / 16777216 % 256) as u8,
    ]
}

/// The number that four little-endian bytes stand for.
pub open spec fn le32_value(s: Seq<u8>) -> int {
    s[0] as int + 256 * s[1] + 65536 * s[2] + 16777216 * s[3]
}

/// Reading the encoding of a number gives the number back.
pub proof fn le32_round_trip(x: u32)
    ensures
        le32(x).len() == 4,
        le32_value(le32(x)) == x,
{
    let v = x as int;
    assert(v == v % 256 + 256 * (v / 256 % 256) + 65536 * (v / 65536 % 256) + 16777216 * (v
        / 16777216 % 256)) by {
        assert(v / 256 / 256 == v / 65536);
        assert(v / 65536 / 256 == v / 16777216);
    }
}

/// Two encodings agree only for the same number.
pub proof fn le32_injective(x: u32, y: u32)
    requires
        le32(x) == le32(y),
    ensures
        x == y,
{
    le32_round_trip(x);
    le32_round_trip(y);
}

/// Encodes a 32-bit number, least significant byte first.
pub fn u32_to_le(x: u32) -> (out: Vec<u8>)
    ensures
        out@ == le32(x),
{
    let mut out: Vec<u8> = Vec::new();
    out.push((x % 256) as u8);
    out.push((x / 256 % 256) as u8);
    out.push((x / 65536 % 256) as u8);
    out.push((x / 16777216 % 256) as u8);
    assert(out@ =~= le32(x));
    out
}

/// Decodes four little-endian bytes that start at `at`.
pub fn u32_from_le(data: &[u8], at: usize) -> (x: u32)
    requires
        at + 4 <= data@.len(),
    ensures
        x == le32_value(data@.subrange(at as int, at + 4)),
{
    data[at] as u32 + 256 * (data[at + 1] as u32) + 65536 * (data[at + 2] as u32) + 16777216 * (
    data[at + 3] as u32)
}

/// Whether two byte strings are equal.
pub fn same_bytes(a: &[u8], b: &[u8]) -> (same: bool)
    ensures
        same == (a@ == b@),
{
    if a.len() != b.len() {
        return false;
    }
    let mut i: usize = 0;
    while i < a.len()
        invariant
            i <= a@.len(),
            a@.len() == b@.len(),
            forall|j: int| 0 <= j < i ==> a@[j] == b@[j],
        decreases a@.len() - i,
    {
        if a[i] != b[i] {
            return false;
        }
        i += 1;
    }
    assert(a@ =~= b@);
    true
}

/// Whether two 32-byte hashes are equal.
pub fn same_hash(a: &[u8; 32], b: &[u8; 32]) -> (same: bool)
    ensures
        same == (a == b),
        same == (a@ == b@),
{
    let mut i: usize = 0;
    while i < 32
        invariant
            i <= 32,
            forall|j: int| 0 <= j < i ==> a@[j] == b@[j],
        decreases 32 - i,
    {
        if a[i] != b[i] {
            return false;
        }
        i += 1;
    }
    assert(a@ =~= b@);
    assert(a =~= b);
    true
}

/// The part of `data` from `from` up to, not including, `to`.
pub fn copy_range(data: &[u8], from: usize, to: usize) -> (out: Vec<u8>)
    requires
        from <= to <= data@.len(),
    ensures
        out@ == data@.subrange(from as int, to as int),
{
    vstd::slice::slice_to_vec(vstd::slice::slice_subrange(data, from, to))
}

/// Appends a copy of `tail` to `out`.
pub fn append_bytes(out: &mut Vec<u8>, tail: &[u8])
    ensures
        final(out)@ == old(out)@ + tail@,
{
    let ghost before = out@;
    out.extend_from_slice(tail);
    assert(out@ =~= before + tail@);
}

/// The 32 bytes of `data` that start at `at`.
pub fn hash_at(data: &[u8], at: usize) -> (out: [u8; 32])
    requires
        at + 32 <= data@.len(),
    ensures
        out@ == data@.subrange(at as int, at + 32),
{
    let mut out: [u8; 32] = [0u8; 32];
    let mut i: usize = 0;
    while i < 32
        invariant
            i <= 32,
            at + 32 <= data.len(),
            forall|j: int| 0 <= j < i ==> out@[j] == data@[at + j],
        decreases 32 - i,
    {
        out[i] = data[at + i];
        i += 1;
    }
    assert(out@ =~= data@.subrange(at as int, at + 32));
    out
}

/// The lower-case hexadecimal digit of a value below 16.
pub open spec fn hex_digit(d: int) -> char
    recommends
        0 <= d < 16,
{
    if d < 10 {
        (48 + d) as char
    } else {
        (87 + d) as char
    }
}

/// Bytes in hexadecimal, two lower-case digits each.
pub open spec fn hex_text(data: Seq<u8>) -> Seq<char>
    decreases data.len(),
{
    if data.len() == 0 {
        Seq::empty()
    } else {
        hex_text(data.drop_last()) + seq![
            hex_digit(data.last() as int / 16),
            hex_digit(data.last() as int % 16),
        ]
    }
}

/// The digits of a byte string stand in its order, two for each byte.
pub proof fn hex_text_digits(data: Seq<u8>)
    ensures
        hex_text(data).len() == 2 * data.len(),
        forall|i: int|
            0 <= i < data.len() ==> hex_text(data)[2 * i] == hex_digit(data[i] as int / 16)
                && hex_text(data)[2 * i + 1] == hex_digit(#[trigger] data[i] as int % 16),
    decreases data.len(),
{
    if data.len() > 0 {
        hex_text_digits(data.drop_last());
        assert forall|i: int| 0 <= i < data.len() implies hex_text(data)[2 * i] == hex_digit(
            data[i] as int / 16,
        ) && hex_text(data)[2 * i + 1] == hex_digit(#[trigger] data[i] as int % 16) by {
            if i < data.len() - 1 {
                assert(data.drop_last()[i] == data[i]);
            }
        }
    }
}

/// Different byte strings have different hexadecimal texts.
pub proof fn hex_text_injective(a: Seq<u8>, b: Seq<u8>)
    requires
        hex_text(a) == hex_text(b),
    ensures
        a == b,
{
    hex_text_digits(a);
    hex_text_digits(b);
    assert forall|i: int| 0 <= i < a.len() implies a[i] == b[i] by {
        let x = a[i] as int;
        let y = b[i] as int;
        assert(hex_digit(x / 16) == hex_digit(y / 16));
        assert(hex_digit(x % 16) == hex_digit(y % 16));
        assert(x / 16 == y / 16);
        assert(x % 16 == y % 16);
    }
    assert(a =~= b);
}

fn digit_for(d: u8) -> (c: char)
    requires
        d < 16,
    ensures
        c == hex_digit(d as int),
{
    if d < 10 {
        (48 + d) as char
    } else {
        (87 + d) as char
    }
}

/// Writes bytes in hexadecimal.
pub fn to_hex(data: &[u8]) -> (out: String)
    ensures
        out@ == hex_text(data@),
{
    let mut out: String = String::new();
    let mut i: usize = 0;
    assert(data@.take(0) =~= Seq::<u8>::empty());
    while i < data.len()
        invariant
            i <= data@.len(),
            out@ == hex_text(data@.take(i as int)),
        decreases data@.len() - i,
    {
        let ghost before = out@;
        out.push(digit_for(data[i] / 16));
        out.push(digit_for(data[i] % 16));
        proof {
            let next = data@.take(i as int + 1);
            assert(next.drop_last() =~= data@.take(i as int));
            assert(out@ =~= before + seq![
                hex_digit(next.last() as int / 16),
                hex_digit(next.last() as int % 16),
            ]);
        }
        i += 1;
    }
    assert(data@.take(i as int) =~= data@);
    out
}

/// The value of a hexadecimal digit of either case.
pub open spec fn hex_value(c: char) -> Option<int> {
    if '0' <= c <= '9' {
        Some(c as int - 48)
    } else if 'a' <= c <= 'f' {
        Some(c as int - 87)
    } else if 'A' <= c <= 'F' {
        Some(c as int - 55)
    } else {
        None
    }
}

fn value_for(c: char) -> (out: Option<u8>)
    ensures
        out is Some <==> hex_value(c) is Some,
        out matches Some(v) ==> v < 16 && hex_value(c) == Some(v as int),
{
    if '0' <= c && c <= '9' {
        Some((c as u32 - 48) as u8)
    } else if 'a' <= c && c <= 'f' {
        Some((c as u32 - 87) as u8)
    } else if 'A' <= c && c <= 'F' {
        Some((c as u32 - 55) as u8)
    } else {
        None
    }
}

/// The byte that two characters stand for: two digits, or a plus sign and one digit.
pub open spec fn hex_byte(hi: char, lo: char) -> Option<int> {
    if hi == '+' {
        hex_value(lo)
    } else if hex_value(hi) is Some && hex_value(lo) is Some {
        Some(16 * hex_value(hi)->0 + hex_value(lo)->0)
    } else {
        None
    }
}

/// The 32 bytes that 64 characters stand for.
pub open spec fn hash_from_hex(text: Seq<char>) -> Option<Seq<u8>> {
    if text.len() == 64 && forall|i: int|
        0 <= i < 32 ==> hex_byte(text[2 * i], #[trigger] text[2 * i + 1]) is Some {
        Some(Seq::new(32, |i: int| hex_byte(text[2 * i], text[2 * i + 1])->0 as u8))
    } else {
        None
    }
}

/// Reads the 32 bytes that 64 characters stand for.
pub fn hash_of_hex(text: &[char]) -> (out: Option<[u8; 32]>)
    ensures
        out is Some <==> hash_from_hex(text@) is Some,
        out matches Some(h) ==> hash_from_hex(text@) == Some(h@),
{
    if text.len() != 64 {
        return None;
    }
    let mut out: [u8; 32] = [0u8; 32];
    let mut i: usize = 0;
    while i < 32
        invariant
            i <= 32,
            text@.len() == 64,
            forall|j: int|
                0 <= j < i ==> hex_byte(text@[2 * j], #[trigger] text@[2 * j + 1]) == Some(
                    out@[j] as int,
                ),
        decreases 32 - i,
    {
        let hi = text[2 * i];
        let lo = text[2 * i + 1];
        let ghost wanted = hex_byte(text@[2 * i as int], text@[2 * i as int + 1]);
        let b: u8 = match value_for(lo) {
            None => {
                assert(wanted is None);
                return None;
            },
            Some(l) => if hi == '+' {
                l
            } else {
                match value_for(hi) {
                    None => {
                        assert(wanted is None);
                        return None;
                    },
                    Some(h) => 16 * h + l,
                }
            },
        };
        out[i] = b;
        i += 1;
    }
    assert(out@ =~= Seq::new(32, |i: int| hex_byte(text@[2 * i], text@[2 * i + 1])->0 as u8));
    Some(out)
}

/// Reading the hexadecimal text of a hash gives the hash back.
pub proof fn hash_hex_round_trip(h: [u8; 32])
    ensures
        hash_from_hex(hex_text(h@)) == Some(h@),
{
    hex_text_digits(h@);
    let t = hex_text(h@);
    assert forall|i: int| 0 <= i < 32 implies hex_byte(t[2 * i], #[trigger] t[2 * i + 1]) == Some(
        h@[i] as int,
    ) by {
        let b = h@[i] as int;
        assert(t[2 * i] == hex_digit(b / 16));
        assert(t[2 * i + 1] == hex_digit(b % 16));
    }
    assert(Seq::new(32, |i: int| hex_byte(t[2 * i], t[2 * i + 1])->0 as u8) =~= h@);
}

/// Compares two byte strings in a time that depends on their lengths only.
pub fn constant_time_eq(a: &[u8], b: &[u8]) -> (same: bool)
    ensures
        same == (a@ == b@),
{
    if a.len() != b.len() {
        return false;
    }
    let mut diff: u8 = 0;
    let mut i: usize = 0;
    while i < a.len()
        invariant
            i <= a@.len(),
            a@.len() == b@.len(),
            diff == 0 <==> (forall|j: int| 0 <= j < i ==> a@[j] == b@[j]),
        decreases a@.len() - i,
    {
        let x: u8 = a[i];
        let y: u8 = b[i];
        let before: u8 = diff;
        diff = diff | (x ^ y);
        assert((before | (x ^ y)) == 0 <==> (before == 0 && x == y)) by (bit_vector);
        i += 1;
    }
    if diff == 0 {
        assert(a@ =~= b@);
    }
    diff == 0
}

/// Upper-case and lower-case digits have the same value.
pub proof fn digits_have_values(d: int)
    requires
        0 <= d < 16,
    ensures
        hex_value(hex_digit(d)) == Some(d),
        10 <= d ==> hex_value((55 + d) as char) == Some(d),
        hex_value('g') is None,
        hex_value('+') is None,
{
}

} // verus!
