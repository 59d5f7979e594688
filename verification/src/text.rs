//! Text as sequences of characters: lines, words, fields, trimming, numbers.
use vstd::prelude::*;

verus! {

/// `String::push` of the standard library: puts one character behind the text.
pub assume_specification[ String::push ](text: &mut String, c: char)
    ensures
        final(text)@ == old(text)@.push(c),
;

/// The views of a list of character vectors.
pub open spec fn views(v: Seq<Vec<char>>) -> Seq<Seq<char>> {
    Seq::new(v.len(), |i: int| v[i]@)
}

/// The views of a list of strings.
pub open spec fn texts(v: Seq<String>) -> Seq<Seq<char>> {
    Seq::new(v.len(), |i: int| v[i]@)
}

/// The view of an optional string.
pub open spec fn opt_text(o: Option<String>) -> Option<Seq<char>> {
    match o {
        Some(s) => Some(s@),
        None => None,
    }
}

/// What a rule makes of each text of a list, without those of which it makes nothing.
pub open spec fn picked<T>(list: Seq<Seq<char>>, rule: spec_fn(Seq<char>) -> Option<T>) -> Seq<T>
    decreases list.len(),
{
    if list.len() == 0 {
        Seq::empty()
    } else {
        let front = picked(list.drop_last(), rule);
        match rule(list.last()) {
            Some(x) => front.push(x),
            None => front,
        }
    }
}

/// Going one text further in a list.
pub proof fn picked_step<T>(list: Seq<Seq<char>>, rule: spec_fn(Seq<char>) -> Option<T>, i: int)
    requires
        0 <= i < list.len(),
    ensures
        picked(list.take(i + 1), rule) == match rule(list[i]) {
            Some(x) => picked(list.take(i), rule).push(x),
            None => picked(list.take(i), rule),
        },
{
    assert(list.take(i + 1).drop_last() =~= list.take(i));
}

pub proof fn views_push(v: Seq<Vec<char>>, x: Vec<char>)
    ensures
        views(v.push(x)) == views(v).push(x@),
{
    assert(views(v.push(x)) =~= views(v).push(x@));
}

pub proof fn texts_push(v: Seq<String>, x: String)
    ensures
        texts(v.push(x)) == texts(v).push(x@),
{
    assert(texts(v.push(x)) =~= texts(v).push(x@));
}

// --- Conversions ---------------------------------------------------------------------------

/// The characters of a text.
pub fn to_chars(s: &str) -> (out: Vec<char>)
    ensures
        out@ == s@,
{
    let mut out: Vec<char> = Vec::new();
    for c in it: s.chars()
        invariant
            out@ == it.seq().take(it.index() as int),
            it.seq() == s@,
    {
        let ghost before = out@;
        out.push(c);
        assert(out@ =~= it.seq().take(it.index() as int + 1));
    }
    assert(out@ =~= s@);
    out
}

/// The text made of the given characters.
pub fn from_chars(chars: &[char]) -> (out: String)
    ensures
        out@ == chars@,
{
    let mut out: String = String::new();
    let mut i: usize = 0;
    while i < chars.len()
        invariant
            i <= chars@.len(),
            out@ == chars@.take(i as int),
        decreases chars@.len() - i,
    {
        out.push(chars[i]);
        assert(out@ =~= chars@.take(i as int + 1));
        i += 1;
    }
    assert(out@ =~= chars@);
    out
}

/// A copy of part of a list of characters.
pub fn sub_chars(s: &[char], from: usize, to: usize) -> (out: Vec<char>)
    requires
        from <= to <= s@.len(),
    ensures
        out@ == s@.subrange(from as int, to as int),
{
    vstd::slice::slice_to_vec(vstd::slice::slice_subrange(s, from, to))
}

/// A string with the same text.
pub fn copy_text(s: &str) -> (out: String)
    ensures
        out@ == s@,
{
    s.to_owned()
}

/// Two texts, one behind the other.
pub fn concat2(a: &str, b: &str) -> (out: String)
    ensures
        out@ == a@ + b@,
{
    let mut out: String = a.to_owned();
    out.append(b);
    out
}

/// Three texts, one behind the other.
pub fn concat3(a: &str, b: &str, c: &str) -> (out: String)
    ensures
        out@ == a@ + b@ + c@,
{
    let mut out: String = concat2(a, b);
    out.append(c);
    out
}

/// Appends a text to a list of strings.
pub fn push_text(list: &mut Vec<String>, s: &str)
    ensures
        texts(final(list)@) == texts(old(list)@).push(s@),
        final(list)@.len() == old(list)@.len() + 1,
{
    let copy = copy_text(s);
    proof {
        texts_push(list@, copy);
    }
    list.push(copy);
}

/// Whether two lists of characters are equal.
pub fn same_chars(a: &[char], b: &[char]) -> (same: bool)
    ensures
        same == (a@ == b@),
{
    if a.len() != b.len() {
        return false;
    }
    let mut i: usize = 0;
    while i < a.len()
        invariant
            i <= a@.len(),
            a@.len() == b@.len(),
            forall|j: int| 0 <= j < i ==> a@[j] == b@[j],
        decreases a@.len() - i,
    {
        if a[i] != b[i] {
            return false;
        }
        i += 1;
    }
    assert(a@ =~= b@);
    true
}

/// Whether two texts are equal.
pub fn same_text(a: &str, b: &str) -> (same: bool)
    ensures
        same == (a@ == b@),
{
    let x = a.to_owned();
    let y = b.to_owned();
    x == y
}

/// Whether the list of strings holds the given text.
pub fn holds_text(list: &Vec<String>, s: &str) -> (found: bool)
    ensures
        found == texts(list@).contains(s@),
{
    let mut i: usize = 0;
    while i < list.len()
        invariant
            i <= list@.len(),
            forall|j: int| 0 <= j < i ==> texts(list@)[j] != s@,
        decreases list@.len() - i,
    {
        if same_text(list[i].as_str(), s) {
            assert(texts(list@)[i as int] == s@);
            return true;
        }
        i += 1;
    }
    false
}

// --- Numbers -------------------------------------------------------------------------------

pub open spec fn digit_char(d: int) -> char
    recommends
        0 <= d < 10,
{
    (48 + d) as char
}

/// A number in decimal digits, without leading zeros.
pub open spec fn decimal(n: nat) -> Seq<char>
    decreases n,
{
    if n < 10 {
        seq![digit_char(n as int)]
    } else {
        decimal(n / 10).push(digit_char((n % 10) as int))
    }
}

fn digit_of(d: u64) -> (c: char)
    requires
        d < 10,
    ensures
        c == digit_char(d as int),
{
    (48 + d as u8) as char
}

/// Writes a number in decimal digits.
pub fn decimal_string(n: u64) -> (out: String)
    ensures
        out@ == decimal(n as nat),
    decreases n,
{
    if n < 10 {
        let mut out: String = String::new();
        out.push(digit_of(n));
        assert(out@ =~= decimal(n as nat));
        out
    } else {
        let mut out = decimal_string(n / 10);
        out.push(digit_of(n % 10));
        out
    }
}

/// A number in decimal digits, behind a minus sign where it is negative.
pub open spec fn signed_decimal(n: int) -> Seq<char> {
    if n < 0 {
        "-"@ + decimal((-n) as nat)
    } else {
        decimal(n as nat)
    }
}

/// Writes a number in decimal digits, behind a minus sign where it is negative.
pub fn signed_string(n: i64) -> (out: String)
    ensures
        out@ == signed_decimal(n as int),
{
    if n < 0 {
        let magnitude: u64 = (-(n + 1)) as u64 + 1;
        concat2("-", decimal_string(magnitude).as_str())
    } else {
        decimal_string(n as u64)
    }
}

pub open spec fn is_digit(c: char) -> bool {
    '0' <= c <= '9'
}

/// Whether all characters are decimal digits.
pub open spec fn all_digits(s: Seq<char>) -> bool {
    forall|i: int| 0 <= i < s.len() ==> '0' <= #[trigger] s[i] <= '9'
}

/// Whether all characters are decimal digits.
pub fn only_digits(s: &[char]) -> (yes: bool)
    ensures
        yes == all_digits(s@),
{
    let mut i: usize = 0;
    while i < s.len()
        invariant
            i <= s@.len(),
            forall|j: int| 0 <= j < i ==> '0' <= #[trigger] s@[j] <= '9',
        decreases s@.len() - i,
    {
        let c = s[i];
        if c < '0' || c > '9' {
            assert(!('0' <= s@[i as int] && s@[i as int] <= '9'));
            return false;
        }
        i += 1;
    }
    true
}

/// The value of a run of decimal digits.
pub open spec fn digits_value(s: Seq<char>) -> nat
    decreases s.len(),
{
    if s.len() == 0 {
        0
    } else {
        10 * digits_value(s.drop_last()) + (s.last() as int - 48) as nat
    }
}

/// The text without the plus sign that may stand in front of a number.
pub open spec fn without_plus(s: Seq<char>) -> Seq<char> {
    if s.len() > 0 && s[0] == '+' {
        s.skip(1)
    } else {
        s
    }
}

/// Whether the text is a decimal number: digits, at least one, behind an optional plus sign.
pub open spec fn is_number(s: Seq<char>) -> bool {
    &&& without_plus(s).len() > 0
    &&& forall|i: int| 0 <= i < without_plus(s).len() ==> is_digit(#[trigger] without_plus(s)[i])
}

/// The number that a text stands for, where it is one and not above `limit`.
pub open spec fn number_upto(s: Seq<char>, limit: nat) -> Option<nat> {
    if is_number(s) && digits_value(without_plus(s)) <= limit {
        Some(digits_value(without_plus(s)))
    } else {
        None
    }
}

proof fn digits_value_grows(s: Seq<char>, i: int)
    requires
        0 <= i <= s.len(),
        forall|j: int| 0 <= j < s.len() ==> is_digit(#[trigger] s[j]),
    ensures
        digits_value(s.take(i)) <= digits_value(s),
    decreases s.len() - i,
{
    if i < s.len() {
        digits_value_grows(s, i + 1);
        assert(s.take(i + 1).drop_last() =~= s.take(i));
    } else {
        assert(s.take(i) =~= s);
    }
}

/// Reads an unsigned decimal number that must not exceed `limit`.
pub fn parse_number(s: &[char], limit: u64) -> (out: Option<u64>)
    ensures
        out is Some <==> number_upto(s@, limit as nat) is Some,
        out matches Some(n) ==> number_upto(s@, limit as nat) == Some(n as nat),
{
    let start: usize = if s.len() > 0 && s[0] == '+' {
        1
    } else {
        0
    };
    let ghost body = without_plus(s@);
    assert(body =~= s@.subrange(start as int, s@.len() as int));
    if s.len() == start {
        return None;
    }
    let mut value: u64 = 0;
    let mut i: usize = start;
    while i < s.len()
        invariant
            start <= i <= s@.len(),
            start <= 1,
            body == without_plus(s@),
            body.len() == s@.len() - start,
            forall|j: int| 0 <= j < body.len() ==> #[trigger] body[j] == s@[j + start],
            forall|j: int| 0 <= j < i - start ==> is_digit(#[trigger] body[j]),
            value == digits_value(body.take(i - start)),
            value <= limit,
        decreases s@.len() - i,
    {
        let c = s[i];
        if c < '0' || c > '9' {
            assert(!is_digit(body[i - start]));
            return None;
        }
        let d: u64 = c as u64 - 48;
        assert(body.take(i - start + 1).drop_last() =~= body.take(i - start));
        assert(digits_value(body.take(i - start + 1)) == 10 * value + d);
        assert(is_digit(body[i - start]));
        if d > limit || value > (limit - d) / 10 {
            proof {
                assert(10 * value + d > limit);
                if is_number(s@) {
                    digits_value_grows(body, i - start + 1);
                }
            }
            return None;
        }
        value = 10 * value + d;
        i += 1;
    }
    assert(body.take(i - start) =~= body);
    Some(value)
}

// --- White space ---------------------------------------------------------------------------

/// The characters that Unicode counts as white space.
pub open spec fn is_white(c: char) -> bool {
    let n = c as int;
    ||| 0x09 <= n <= 0x0d
    ||| n == 0x20
    ||| n == 0x85
    ||| n == 0xa0
    ||| n == 0x1680
    ||| 0x2000 <= n <= 0x200a
    ||| n == 0x2028
    ||| n == 0x2029
    ||| n == 0x202f
    ||| n == 0x205f
    ||| n == 0x3000
}

/// The number of a character.
pub fn char_code(c: char) -> (n: u32)
    ensures
        n == c as int,
{
    c as u32
}

pub fn white(c: char) -> (yes: bool)
    ensures
        yes == is_white(c),
{
    let n: u32 = c as u32;
    (0x09 <= n && n <= 0x0d) || n == 0x20 || n == 0x85 || n == 0xa0 || n == 0x1680 || (0x2000 <= n
        && n <= 0x200a) || n == 0x2028 || n == 0x2029 || n == 0x202f || n == 0x205f || n == 0x3000
}

/// The text without the white space in front.
pub open spec fn trim_start(s: Seq<char>) -> Seq<char>
    decreases s.len(),
{
    if s.len() > 0 && is_white(s[0]) {
        trim_start(s.drop_first())
    } else {
        s
    }
}

/// The text without the white space behind.
pub open spec fn trim_end(s: Seq<char>) -> Seq<char>
    decreases s.len(),
{
    if s.len() > 0 && is_white(s.last()) {
        trim_end(s.drop_last())
    } else {
        s
    }
}

/// The text without the white space around it.
pub open spec fn trim(s: Seq<char>) -> Seq<char> {
    trim_end(trim_start(s))
}

pub fn trimmed_start(s: &[char]) -> (out: Vec<char>)
    ensures
        out@ == trim_start(s@),
{
    let mut i: usize = 0;
    assert(s@.skip(0) =~= s@);
    while i < s.len() && white(s[i])
        invariant
            i <= s@.len(),
            trim_start(s@.skip(i as int)) == trim_start(s@),
        decreases s@.len() - i,
    {
        assert(s@.skip(i as int).drop_first() =~= s@.skip(i as int + 1));
        i += 1;
    }
    assert(s@.skip(i as int) =~= s@.subrange(i as int, s@.len() as int));
    sub_chars(s, i, s.len())
}

pub fn trimmed_end(s: &[char]) -> (out: Vec<char>)
    ensures
        out@ == trim_end(s@),
{
    let mut n: usize = s.len();
    assert(s@.take(n as int) =~= s@);
    while n > 0 && white(s[n - 1])
        invariant
            n <= s@.len(),
            trim_end(s@.take(n as int)) == trim_end(s@),
        decreases n,
    {
        assert(s@.take(n as int).drop_last() =~= s@.take(n - 1));
        n -= 1;
    }
    assert(s@.take(n as int) =~= s@.subrange(0, n as int));
    sub_chars(s, 0, n)
}

pub fn trimmed(s: &[char]) -> (out: Vec<char>)
    ensures
        out@ == trim(s@),
{
    let front = trimmed_start(s);
    trimmed_end(front.as_slice())
}

/// The text without the leading occurrences of a character.
pub open spec fn without_front(s: Seq<char>, c: char) -> Seq<char>
    decreases s.len(),
{
    if s.len() > 0 && s[0] == c {
        without_front(s.drop_first(), c)
    } else {
        s
    }
}

/// The text without the trailing occurrences of a character.
pub open spec fn without_back(s: Seq<char>, c: char) -> Seq<char>
    decreases s.len(),
{
    if s.len() > 0 && s.last() == c {
        without_back(s.drop_last(), c)
    } else {
        s
    }
}

/// The text without the leading and trailing occurrences of a character.
pub open spec fn without_around(s: Seq<char>, c: char) -> Seq<char> {
    without_back(without_front(s, c), c)
}

pub fn strip_front(s: &[char], c: char) -> (out: Vec<char>)
    ensures
        out@ == without_front(s@, c),
{
    let mut i: usize = 0;
    assert(s@.skip(0) =~= s@);
    while i < s.len() && s[i] == c
        invariant
            i <= s@.len(),
            without_front(s@.skip(i as int), c) == without_front(s@, c),
        decreases s@.len() - i,
    {
        assert(s@.skip(i as int).drop_first() =~= s@.skip(i as int + 1));
        i += 1;
    }
    assert(s@.skip(i as int) =~= s@.subrange(i as int, s@.len() as int));
    sub_chars(s, i, s.len())
}

pub fn strip_back(s: &[char], c: char) -> (out: Vec<char>)
    ensures
        out@ == without_back(s@, c),
{
    let mut n: usize = s.len();
    assert(s@.take(n as int) =~= s@);
    while n > 0 && s[n - 1] == c
        invariant
            n <= s@.len(),
            without_back(s@.take(n as int), c) == without_back(s@, c),
        decreases n,
    {
        assert(s@.take(n as int).drop_last() =~= s@.take(n - 1));
        n -= 1;
    }
    assert(s@.take(n as int) =~= s@.subrange(0, n as int));
    sub_chars(s, 0, n)
}

pub fn strip_around(s: &[char], c: char) -> (out: Vec<char>)
    ensures
        out@ == without_around(s@, c),
{
    let front = strip_front(s, c);
    strip_back(front.as_slice(), c)
}

/// The text without the leading occurrences of a character.
pub fn strip_front_text(s: &str, c: char) -> (out: String)
    ensures
        out@ == without_front(s@, c),
{
    let chars = to_chars(s);
    from_chars(strip_front(chars.as_slice(), c).as_slice())
}

/// The text without the trailing occurrences of a character.
pub fn strip_back_text(s: &str, c: char) -> (out: String)
    ensures
        out@ == without_back(s@, c),
{
    let chars = to_chars(s);
    from_chars(strip_back(chars.as_slice(), c).as_slice())
}

/// The text without the leading and trailing occurrences of a character.
pub fn strip_around_text(s: &str, c: char) -> (out: String)
    ensures
        out@ == without_around(s@, c),
{
    let chars = to_chars(s);
    from_chars(strip_around(chars.as_slice(), c).as_slice())
}

// --- Splitting -----------------------------------------------------------------------------

/// The first position of `c`, or the length where it does not occur.
pub open spec fn find_char(s: Seq<char>, c: char) -> int
    decreases s.len(),
{
    if s.len() == 0 || s[0] == c {
        0
    } else {
        1 + find_char(s.drop_first(), c)
    }
}

pub proof fn find_char_range(s: Seq<char>, c: char)
    ensures
        0 <= find_char(s, c) <= s.len(),
        find_char(s, c) < s.len() ==> s[find_char(s, c)] == c,
        forall|j: int| 0 <= j < find_char(s, c) ==> s[j] != c,
    decreases s.len(),
{
    if s.len() > 0 && s[0] != c {
        find_char_range(s.drop_first(), c);
        assert forall|j: int| 0 <= j < find_char(s, c) implies s[j] != c by {
            if j > 0 {
                assert(s[j] == s.drop_first()[j - 1]);
            }
        }
    }
}

/// The first position of `c`, or the length where it does not occur.
pub fn position_of(s: &[char], c: char) -> (k: usize)
    ensures
        k == find_char(s@, c),
        k <= s@.len(),
{
    let mut i: usize = 0;
    assert(s@.skip(0) =~= s@);
    while i < s.len() && s[i] != c
        invariant
            i <= s@.len(),
            i + find_char(s@.skip(i as int), c) == find_char(s@, c),
        decreases s@.len() - i,
    {
        assert(s@.skip(i as int).drop_first() =~= s@.skip(i as int + 1));
        i += 1;
    }
    i
}

/// The parts of a text between the occurrences of `sep`; always at least one part.
pub open spec fn split_on(s: Seq<char>, sep: char) -> Seq<Seq<char>>
    decreases s.len(),
{
    let k = find_char(s, sep);
    if 0 <= k < s.len() {
        seq![s.take(k)] + split_on(s.skip(k + 1), sep)
    } else {
        seq![s]
    }
}

pub fn split(s: &[char], sep: char) -> (out: Vec<Vec<char>>)
    ensures
        views(out@) == split_on(s@, sep),
        out@.len() >= 1,
{
    let mut out: Vec<Vec<char>> = Vec::new();
    let mut rest: Vec<char> = vstd::slice::slice_to_vec(s);
    assert(views(out@) + split_on(rest@, sep) =~= split_on(s@, sep));
    loop
        invariant_except_break
            views(out@) + split_on(rest@, sep) == split_on(s@, sep),
        ensures
            views(out@) == split_on(s@, sep),
            out@.len() >= 1,
        decreases rest@.len(),
    {
        let k = position_of(rest.as_slice(), sep);
        let ghost front = views(out@);
        if k < rest.len() {
            let part = sub_chars(rest.as_slice(), 0, k);
            let tail = sub_chars(rest.as_slice(), k + 1, rest.len());
            proof {
                assert(part@ =~= rest@.take(k as int));
                assert(tail@ =~= rest@.skip(k as int + 1));
                views_push(out@, part);
                assert(front + (seq![part@] + split_on(tail@, sep)) =~= front.push(part@)
                    + split_on(tail@, sep));
            }
            out.push(part);
            rest = tail;
        } else {
            proof {
                views_push(out@, rest);
                assert(front + seq![rest@] =~= front.push(rest@));
            }
            out.push(rest);
            break;
        }
    }
    out
}

/// A line without the carriage return that ends it.
pub open spec fn without_cr(s: Seq<char>) -> Seq<char> {
    if s.len() > 0 && s.last() == '\r' {
        s.drop_last()
    } else {
        s
    }
}

/// The lines of a text. A line ends at a line feed, with or without a carriage return before it;
/// what follows the last line feed is a line unless it is empty.
pub open spec fn lines(s: Seq<char>) -> Seq<Seq<char>>
    decreases s.len(),
{
    let k = find_char(s, '\n');
    if s.len() == 0 {
        Seq::empty()
    } else if 0 <= k < s.len() {
        seq![without_cr(s.take(k))] + lines(s.skip(k + 1))
    } else {
        seq![s]
    }
}

pub fn lines_of(s: &[char]) -> (out: Vec<Vec<char>>)
    ensures
        views(out@) == lines(s@),
{
    let mut out: Vec<Vec<char>> = Vec::new();
    let mut rest: Vec<char> = vstd::slice::slice_to_vec(s);
    assert(views(out@) + lines(rest@) =~= lines(s@));
    while rest.len() > 0
        invariant
            views(out@) + lines(rest@) == lines(s@),
        decreases rest@.len(),
    {
        let k = position_of(rest.as_slice(), '\n');
        let ghost front = views(out@);
        let ghost whole = rest@;
        if k < rest.len() {
            let end: usize = if k > 0 && rest[k - 1] == '\r' {
                k - 1
            } else {
                k
            };
            let part = sub_chars(rest.as_slice(), 0, end);
            let tail = sub_chars(rest.as_slice(), k + 1, rest.len());
            proof {
                assert(part@ =~= without_cr(rest@.take(k as int)));
                assert(tail@ =~= rest@.skip(k as int + 1));
                views_push(out@, part);
                assert(front + (seq![part@] + lines(tail@)) =~= front.push(part@) + lines(tail@));
            }
            out.push(part);
            rest = tail;
        } else {
            let tail: Vec<char> = Vec::new();
            proof {
                views_push(out@, rest);
                assert(front + seq![rest@] =~= front.push(rest@));
                assert(front.push(rest@) + Seq::<Seq<char>>::empty() =~= front.push(rest@));
            }
            out.push(rest);
            rest = tail;
        }
    }
    assert(views(out@) + Seq::<Seq<char>>::empty() =~= views(out@));
    out
}

/// How many characters stand before the first white space.
pub open spec fn word_len(s: Seq<char>) -> int
    decreases s.len(),
{
    if s.len() == 0 || is_white(s[0]) {
        0
    } else {
        1 + word_len(s.drop_first())
    }
}

pub proof fn word_len_range(s: Seq<char>)
    ensures
        0 <= word_len(s) <= s.len(),
        s.len() > 0 && !is_white(s[0]) ==> word_len(s) > 0,
    decreases s.len(),
{
    if s.len() > 0 && !is_white(s[0]) {
        word_len_range(s.drop_first());
    }
}

pub proof fn trim_start_shape(s: Seq<char>)
    ensures
        trim_start(s).len() <= s.len(),
        trim_start(s).len() > 0 ==> !is_white(trim_start(s)[0]),
    decreases s.len(),
{
    if s.len() > 0 && is_white(s[0]) {
        trim_start_shape(s.drop_first());
    }
}

/// The words of a text: the runs without white space.
pub open spec fn words(s: Seq<char>) -> Seq<Seq<char>>
    decreases s.len(),
    via words_decreases
{
    let t = trim_start(s);
    if t.len() == 0 {
        Seq::empty()
    } else {
        seq![t.take(word_len(t))] + words(t.skip(word_len(t)))
    }
}

#[via_fn]
proof fn words_decreases(s: Seq<char>) {
    trim_start_shape(s);
    word_len_range(trim_start(s));
}

fn length_of_word(s: &[char]) -> (k: usize)
    ensures
        k == word_len(s@),
        k <= s@.len(),
{
    let mut i: usize = 0;
    assert(s@.skip(0) =~= s@);
    while i < s.len() && !white(s[i])
        invariant
            i <= s@.len(),
            i + word_len(s@.skip(i as int)) == word_len(s@),
        decreases s@.len() - i,
    {
        assert(s@.skip(i as int).drop_first() =~= s@.skip(i as int + 1));
        i += 1;
    }
    i
}

pub fn words_of(s: &[char]) -> (out: Vec<Vec<char>>)
    ensures
        views(out@) == words(s@),
{
    let mut out: Vec<Vec<char>> = Vec::new();
    let mut rest: Vec<char> = vstd::slice::slice_to_vec(s);
    assert(views(out@) + words(rest@) =~= words(s@));
    loop
        invariant
            views(out@) + words(rest@) == words(s@),
        ensures
            views(out@) == words(s@),
        decreases rest@.len(),
    {
        let t = trimmed_start(rest.as_slice());
        let ghost front = views(out@);
        proof {
            trim_start_shape(rest@);
            word_len_range(t@);
        }
        if t.len() == 0 {
            assert(front + Seq::<Seq<char>>::empty() =~= front);
            break;
        }
        let k = length_of_word(t.as_slice());
        let word = sub_chars(t.as_slice(), 0, k);
        let tail = sub_chars(t.as_slice(), k, t.len());
        proof {
            assert(word@ =~= t@.take(k as int));
            assert(tail@ =~= t@.skip(k as int));
            views_push(out@, word);
            assert(front + (seq![word@] + words(tail@)) =~= front.push(word@) + words(tail@));
        }
        out.push(word);
        rest = tail;
    }
    out
}

// --- Prefixes and parts --------------------------------------------------------------------

pub open spec fn has_prefix(s: Seq<char>, p: Seq<char>) -> bool {
    p.len() <= s.len() && s.take(p.len() as int) == p
}

/// Whether `p` occurs in `s` at position `i`.
pub open spec fn occurs_at(s: Seq<char>, p: Seq<char>, i: int) -> bool {
    0 <= i && i + p.len() <= s.len() && s.subrange(i, i + p.len()) == p
}

/// Whether `p` occurs anywhere in `s`.
pub open spec fn has_part(s: Seq<char>, p: Seq<char>) -> bool {
    exists|i: int| occurs_at(s, p, i)
}

/// Whether `p` occurs in `s` at position `i`.
pub fn part_at(s: &[char], p: &[char], i: usize) -> (yes: bool)
    ensures
        yes == occurs_at(s@, p@, i as int),
{
    if i > s.len() || p.len() > s.len() - i {
        return false;
    }
    let mut j: usize = 0;
    while j < p.len()
        invariant
            j <= p@.len(),
            i + p@.len() <= s@.len(),
            s@.len() <= usize::MAX,
            forall|k: int| 0 <= k < j ==> s@[i + k] == p@[k],
        decreases p@.len() - j,
    {
        if s[i + j] != p[j] {
            assert(s@.subrange(i as int, i + p@.len())[j as int] != p@[j as int]);
            return false;
        }
        j += 1;
    }
    assert(s@.subrange(i as int, i + p@.len()) =~= p@);
    true
}

pub fn starts_with(s: &[char], p: &str) -> (yes: bool)
    ensures
        yes == has_prefix(s@, p@),
{
    let pc = to_chars(p);
    let yes = part_at(s, pc.as_slice(), 0);
    assert(pc@.len() <= s@.len() ==> s@.subrange(0, pc@.len() as int) =~= s@.take(pc@.len() as int));
    yes
}

/// Whether `p` occurs anywhere in `s`.
pub fn contains_part(s: &[char], p: &str) -> (yes: bool)
    ensures
        yes == has_part(s@, p@),
{
    let pc = to_chars(p);
    let mut i: usize = 0;
    loop
        invariant
            i <= s@.len(),
            pc@ == p@,
            forall|j: int| 0 <= j < i ==> !occurs_at(s@, p@, j),
        decreases s@.len() - i,
    {
        if part_at(s, pc.as_slice(), i) {
            return true;
        }
        if i == s.len() {
            return false;
        }
        i += 1;
    }
}

/// The rest of the text behind the prefix, where it has it.
pub open spec fn after_prefix(s: Seq<char>, p: Seq<char>) -> Option<Seq<char>> {
    if has_prefix(s, p) {
        Some(s.skip(p.len() as int))
    } else {
        None
    }
}

pub fn strip_prefix(s: &[char], p: &str) -> (out: Option<Vec<char>>)
    ensures
        out is Some <==> after_prefix(s@, p@) is Some,
        out matches Some(r) ==> after_prefix(s@, p@) == Some(r@),
{
    if starts_with(s, p) {
        let n = p.unicode_len();
        let rest = sub_chars(s, n, s.len());
        assert(rest@ =~= s@.skip(p@.len() as int));
        Some(rest)
    } else {
        None
    }
}

/// What stands before and behind the first `sep`, where there is one.
pub open spec fn cut_once(s: Seq<char>, sep: char) -> Option<(Seq<char>, Seq<char>)> {
    let k = find_char(s, sep);
    if 0 <= k < s.len() {
        Some((s.take(k), s.skip(k + 1)))
    } else {
        None
    }
}

pub fn split_once(s: &[char], sep: char) -> (out: Option<(Vec<char>, Vec<char>)>)
    ensures
        out is Some <==> cut_once(s@, sep) is Some,
        out matches Some((a, b)) ==> cut_once(s@, sep) == Some((a@, b@)),
{
    let k = position_of(s, sep);
    if k < s.len() {
        let a = sub_chars(s, 0, k);
        let b = sub_chars(s, k + 1, s.len());
        assert(a@ =~= s@.take(k as int));
        assert(b@ =~= s@.skip(k as int + 1));
        Some((a, b))
    } else {
        None
    }
}

/// The first position of `p` in `s` from `i` on, where it occurs.
pub open spec fn first_part(s: Seq<char>, p: Seq<char>, i: int) -> Option<int>
    decreases s.len() - i + 1,
{
    if i < 0 || i > s.len() {
        None
    } else if occurs_at(s, p, i) {
        Some(i)
    } else {
        first_part(s, p, i + 1)
    }
}

/// The last position of `p` in `s` up to `i`, where it occurs.
pub open spec fn last_part(s: Seq<char>, p: Seq<char>, i: int) -> Option<int>
    decreases i + 1,
{
    if i < 0 {
        None
    } else if occurs_at(s, p, i) {
        Some(i)
    } else {
        last_part(s, p, i - 1)
    }
}

/// What stands behind the first occurrence of `p`, where there is one.
pub open spec fn after_part(s: Seq<char>, p: Seq<char>) -> Option<Seq<char>> {
    match first_part(s, p, 0) {
        Some(k) => Some(s.skip(k + p.len())),
        None => None,
    }
}

pub fn text_after(s: &[char], p: &str) -> (out: Option<Vec<char>>)
    ensures
        out is Some <==> after_part(s@, p@) is Some,
        out matches Some(r) ==> after_part(s@, p@) == Some(r@),
{
    let pc = to_chars(p);
    let mut i: usize = 0;
    loop
        invariant
            i <= s@.len(),
            pc@ == p@,
            first_part(s@, p@, 0) == first_part(s@, p@, i as int),
        decreases s@.len() - i,
    {
        if part_at(s, pc.as_slice(), i) {
            let n: usize = s.len();
            assert(i + pc@.len() <= n);
            let rest = sub_chars(s, i + pc.len(), n);
            assert(rest@ =~= s@.skip(i + p@.len()));
            return Some(rest);
        }
        if i == s.len() {
            assert(first_part(s@, p@, i + 1) is None);
            return None;
        }
        i += 1;
    }
}

/// The last position of `p` in `s`, where it occurs.
pub fn last_position(s: &[char], p: &str) -> (out: Option<usize>)
    ensures
        out is Some <==> last_part(s@, p@, s@.len() as int) is Some,
        out matches Some(k) ==> last_part(s@, p@, s@.len() as int) == Some(k as int) && k + p@.len()
            <= s@.len(),
{
    let pc = to_chars(p);
    let mut i: usize = s.len();
    loop
        invariant
            i <= s@.len(),
            pc@ == p@,
            last_part(s@, p@, s@.len() as int) == last_part(s@, p@, i as int),
        decreases i,
    {
        if part_at(s, pc.as_slice(), i) {
            return Some(i);
        }
        if i == 0 {
            assert(last_part(s@, p@, -1) is None);
            return None;
        }
        i -= 1;
    }
}

/// The parts of a list with a separator between them.
pub open spec fn join_with(parts: Seq<Seq<char>>, sep: Seq<char>) -> Seq<char>
    decreases parts.len(),
{
    if parts.len() == 0 {
        Seq::empty()
    } else if parts.len() == 1 {
        parts[0]
    } else {
        join_with(parts.drop_last(), sep) + sep + parts.last()
    }
}

/// Joins the parts of a list from `from` on with a separator between them.
pub fn join_from(parts: &Vec<Vec<char>>, from: usize, sep: &str) -> (out: String)
    requires
        from <= parts@.len(),
    ensures
        out@ == join_with(views(parts@).skip(from as int), sep@),
{
    let ghost list = views(parts@).skip(from as int);
    let mut out: String = String::new();
    let mut i: usize = from;
    assert(list.take(0) =~= Seq::<Seq<char>>::empty());
    while i < parts.len()
        invariant
            from <= i <= parts@.len(),
            list == views(parts@).skip(from as int),
            out@ == join_with(list.take(i - from), sep@),
        decreases parts@.len() - i,
    {
        let part = from_chars(parts[i].as_slice());
        proof {
            let more = list.take(i - from + 1);
            assert(more.drop_last() =~= list.take(i - from));
            assert(more.last() == part@);
        }
        if i > from {
            out.append(sep);
            out.append(part.as_str());
        } else {
            out = part;
        }
        i += 1;
    }
    assert(list.take(i - from) =~= list);
    out
}

/// The value of a hexadecimal digit of either case.
pub open spec fn hex_digit_value(c: char) -> Option<int> {
    if '0' <= c <= '9' {
        Some(c as int - 48)
    } else if 'a' <= c <= 'f' {
        Some(c as int - 87)
    } else if 'A' <= c <= 'F' {
        Some(c as int - 55)
    } else {
        None
    }
}

/// The value of a run of hexadecimal digits.
pub open spec fn hex_number(s: Seq<char>) -> Option<nat>
    decreases s.len(),
{
    if s.len() == 0 {
        Some(0)
    } else {
        match (hex_number(s.drop_last()), hex_digit_value(s.last())) {
            (Some(n), Some(d)) => Some((16 * n + d) as nat),
            _ => None,
        }
    }
}

/// The byte that a text stands for in hexadecimal digits, behind an optional plus sign.
pub open spec fn hex_u8(s: Seq<char>) -> Option<nat> {
    let body = without_plus(s);
    if body.len() > 0 && hex_number(body) is Some && hex_number(body)->0 <= 255 {
        hex_number(body)
    } else {
        None
    }
}

proof fn hex_number_grows(s: Seq<char>, i: int)
    requires
        0 <= i <= s.len(),
        hex_number(s) is Some,
    ensures
        hex_number(s.take(i)) is Some,
        hex_number(s.take(i))->0 <= hex_number(s)->0,
    decreases s.len() - i,
{
    if i < s.len() {
        hex_number_grows(s, i + 1);
        assert(s.take(i + 1).drop_last() =~= s.take(i));
    } else {
        assert(s.take(i) =~= s);
    }
}

fn digit_value_of(c: char) -> (out: Option<u32>)
    ensures
        out is Some <==> hex_digit_value(c) is Some,
        out matches Some(d) ==> hex_digit_value(c) == Some(d as int) && d < 16,
{
    if '0' <= c && c <= '9' {
        Some(c as u32 - 48)
    } else if 'a' <= c && c <= 'f' {
        Some(c as u32 - 87)
    } else if 'A' <= c && c <= 'F' {
        Some(c as u32 - 55)
    } else {
        None
    }
}

/// Reads a byte in hexadecimal digits.
pub fn parse_hex_u8(s: &[char]) -> (out: Option<u8>)
    ensures
        out is Some <==> hex_u8(s@) is Some,
        out matches Some(n) ==> hex_u8(s@) == Some(n as nat),
{
    let start: usize = if s.len() > 0 && s[0] == '+' {
        1
    } else {
        0
    };
    let ghost body = without_plus(s@);
    assert(body =~= s@.subrange(start as int, s@.len() as int));
    if s.len() == start {
        return None;
    }
    let mut value: u32 = 0;
    let mut i: usize = start;
    while i < s.len()
        invariant
            start <= i <= s@.len(),
            start <= 1,
            body == without_plus(s@),
            body.len() == s@.len() - start,
            forall|j: int| 0 <= j < body.len() ==> #[trigger] body[j] == s@[j + start],
            hex_number(body.take(i - start)) == Some(value as nat),
            value <= 255,
        decreases s@.len() - i,
    {
        assert(body.take(i - start + 1).drop_last() =~= body.take(i - start));
        assert(body.take(i - start + 1).last() == s@[i as int]);
        let d: u32 = match digit_value_of(s[i]) {
            Some(d) => d,
            None => {
                proof {
                    if hex_number(body) is Some {
                        hex_number_grows(body, i - start + 1);
                    }
                }
                return None;
            },
        };
        if 16 * value + d > 255 {
            proof {
                if hex_number(body) is Some {
                    hex_number_grows(body, i - start + 1);
                }
            }
            return None;
        }
        value = 16 * value + d;
        i += 1;
    }
    assert(body.take(i - start) =~= body);
    Some(value as u8)
}

/// Whether the list of characters is the given text.
pub fn chars_are(s: &[char], t: &str) -> (same: bool)
    ensures
        same == (s@ == t@),
{
    let tc = to_chars(t);
    same_chars(s, tc.as_slice())
}

} // verus!
