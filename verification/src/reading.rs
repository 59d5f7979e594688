//! What reading a text gives back of writing one: numbers, lines, fields and words.
use crate::text::cut_once;
use crate::text::decimal;
use crate::text::digits_value;
use crate::text::find_char;
use crate::text::find_char_range;
use crate::text::first_part;
use crate::text::is_digit;
use crate::text::is_number;
use crate::text::is_white;
use crate::text::join_with;
use crate::text::lines;
use crate::text::number_upto;
use crate::text::occurs_at;
use crate::text::signed_decimal;
use crate::text::split_on;
use crate::text::trim;
use crate::text::trim_end;
use crate::text::trim_start;
use crate::text::trim_start_shape;
use crate::text::without_plus;
use crate::text::word_len;
use crate::text::word_len_range;
use crate::text::words;
use vstd::prelude::*;

verus! {

// --- Numbers ---------------------------------------------------------------------------------

/// A number in decimal digits has one digit or more, nothing but digits, and the value of the
/// number.
pub proof fn decimals_have_their_value(n: nat)
    ensures
        decimal(n).len() > 0,
        forall|i: int| 0 <= i < decimal(n).len() ==> '0' <= #[trigger] decimal(n)[i] <= '9',
        digits_value(decimal(n)) == n,
    decreases n,
{
    if n < 10 {
        let s = decimal(n);
        assert(s.drop_last() =~= Seq::<char>::empty());
        assert(digits_value(s.drop_last()) == 0);
        assert(s.last() as int == 48 + n);
    } else {
        decimals_have_their_value(n / 10);
        let front = decimal(n / 10);
        let s = decimal(n);
        assert(s.drop_last() =~= front);
        assert(s.last() as int == 48 + n % 10);
        assert forall|i: int| 0 <= i < s.len() implies '0' <= #[trigger] s[i] <= '9' by {
            if i < front.len() {
                assert(s[i] == front[i]);
            }
        }
    }
}

/// What is written as a number is read as that number, where it is not above the limit.
pub proof fn numbers_read_back(n: nat, limit: nat)
    ensures
        number_upto(decimal(n), limit) == if n <= limit {
            Some(n)
        } else {
            None
        },
{
    decimals_have_their_value(n);
    let s = decimal(n);
    assert(without_plus(s) == s);
    assert forall|i: int| 0 <= i < s.len() implies is_digit(#[trigger] s[i]) by {}
    assert(is_number(s));
}

/// Different numbers are written differently.
pub proof fn decimals_tell_numbers_apart(a: nat, b: nat)
    requires
        decimal(a) == decimal(b),
    ensures
        a == b,
{
    decimals_have_their_value(a);
    decimals_have_their_value(b);
}

/// What holds anything but digits, behind one plus sign at most, is no number.
pub proof fn only_digits_are_numbers(s: Seq<char>, limit: nat, i: int)
    requires
        0 <= i < s.len(),
        !('0' <= s[i] <= '9'),
        i > 0 || s[i] != '+',
    ensures
        number_upto(s, limit) is None,
{
    if s[0] == '+' {
        assert(without_plus(s)[i - 1] == s[i]);
    } else {
        assert(without_plus(s)[i] == s[i]);
    }
}

// --- Lines and fields ------------------------------------------------------------------------

/// Whether a text lacks a character.
pub open spec fn lacks_char(s: Seq<char>, c: char) -> bool {
    forall|i: int| 0 <= i < s.len() ==> #[trigger] s[i] != c
}

proof fn found_behind(front: Seq<char>, c: char, rest: Seq<char>)
    requires
        lacks_char(front, c),
    ensures
        find_char(front + seq![c] + rest, c) == front.len(),
{
    let s = front + seq![c] + rest;
    find_char_range(s, c);
    let k = find_char(s, c);
    if k < front.len() {
        assert(s[k] == front[k]);
    }
    assert(s[front.len() as int] == c);
}

/// The first line of a text ends at the first line feed; the lines behind it are those of the
/// rest.
pub proof fn lines_come_apart(line: Seq<char>, rest: Seq<char>)
    requires
        lacks_char(line, '\n'),
        line.len() == 0 || line.last() != '\r',
    ensures
        lines(line + seq!['\n'] + rest) == seq![line] + lines(rest),
        lines(line + seq!['\r', '\n'] + rest) == seq![line] + lines(rest),
{
    let s = line + seq!['\n'] + rest;
    found_behind(line, '\n', rest);
    assert(s.take(line.len() as int) =~= line);
    assert(s.skip(line.len() as int + 1) =~= rest);
    let front = line + seq!['\r'];
    let t = front + seq!['\n'] + rest;
    found_behind(front, '\n', rest);
    assert(t =~= line + seq!['\r', '\n'] + rest);
    assert(t.take(front.len() as int) =~= front);
    assert(front.drop_last() =~= line);
    assert(t.skip(front.len() as int + 1) =~= rest);
}

/// A text without a line feed is one line; an empty text has none.
pub proof fn lone_lines(line: Seq<char>)
    requires
        lacks_char(line, '\n'),
    ensures
        lines(line) == if line.len() == 0 {
            Seq::<Seq<char>>::empty()
        } else {
            seq![line]
        },
{
    find_char_range(line, '\n');
    assert(find_char(line, '\n') == line.len());
}

proof fn joined_front(first: Seq<char>, parts: Seq<Seq<char>>, sep: Seq<char>)
    requires
        parts.len() > 0,
    ensures
        join_with(seq![first] + parts, sep) == first + sep + join_with(parts, sep),
    decreases parts.len(),
{
    let all = seq![first] + parts;
    if parts.len() == 1 {
        assert(all.drop_last() =~= seq![first]);
        assert(join_with(seq![first], sep) == first);
        assert(all.last() == parts[0]);
    } else {
        joined_front(first, parts.drop_last(), sep);
        assert(all.drop_last() =~= seq![first] + parts.drop_last());
        assert(all.last() == parts.last());
        assert(first + sep + join_with(parts.drop_last(), sep) + sep + parts.last() =~= first + sep
            + join_with(parts, sep));
    }
}

/// Fields come apart at every separator and nowhere else: none of them holds it, and with it
/// between them they make the text again.
pub proof fn fields_come_apart(s: Seq<char>, sep: char)
    ensures
        split_on(s, sep).len() > 0,
        forall|i: int| 0 <= i < split_on(s, sep).len() ==> lacks_char(#[trigger] split_on(s, sep)[i], sep),
        join_with(split_on(s, sep), seq![sep]) == s,
    decreases s.len(),
{
    let k = find_char(s, sep);
    find_char_range(s, sep);
    if k < s.len() {
        let rest = s.skip(k + 1);
        fields_come_apart(rest, sep);
        let parts = split_on(rest, sep);
        let all = split_on(s, sep);
        assert(all == seq![s.take(k)] + parts);
        joined_front(s.take(k), parts, seq![sep]);
        assert(s.take(k) + seq![sep] + rest =~= s);
        assert forall|i: int| 0 <= i < all.len() implies lacks_char(#[trigger] all[i], sep) by {
            if i > 0 {
                assert(all[i] == parts[i - 1]);
            }
        }
    }
}

/// A field ends at the first separator; the fields behind it are those of the rest.
pub proof fn first_fields(field: Seq<char>, sep: char, rest: Seq<char>)
    requires
        lacks_char(field, sep),
    ensures
        split_on(field + seq![sep] + rest, sep) == seq![field] + split_on(rest, sep),
        cut_once(field + seq![sep] + rest, sep) == Some((field, rest)),
{
    let s = field + seq![sep] + rest;
    found_behind(field, sep, rest);
    assert(s.take(field.len() as int) =~= field);
    assert(s.skip(field.len() as int + 1) =~= rest);
}

/// A text without the separator is one field, and cannot be cut at it.
pub proof fn lone_fields(field: Seq<char>, sep: char)
    requires
        lacks_char(field, sep),
    ensures
        split_on(field, sep) == seq![field],
        cut_once(field, sep) is None,
{
    find_char_range(field, sep);
}

// --- Space -----------------------------------------------------------------------------------

/// Whether a text is nothing but space.
pub open spec fn all_white(s: Seq<char>) -> bool {
    forall|i: int| 0 <= i < s.len() ==> is_white(#[trigger] s[i])
}

proof fn trim_start_cuts(s: Seq<char>)
    ensures
        trim_start(s).len() <= s.len(),
        trim_start(s) == s.skip(s.len() - trim_start(s).len()),
        all_white(s.take(s.len() - trim_start(s).len())),
    decreases s.len(),
{
    if s.len() > 0 && is_white(s[0]) {
        let t = s.drop_first();
        trim_start_cuts(t);
        let n = s.len() - trim_start(s).len();
        assert(s.skip(n) =~= t.skip(n - 1));
        assert forall|i: int| 0 <= i < n implies is_white(#[trigger] s.take(n)[i]) by {
            if i > 0 {
                assert(t.take(n - 1)[i - 1] == s[i]);
            }
        }
    } else {
        assert(s.skip(0) =~= s);
    }
}

proof fn trim_end_cuts(s: Seq<char>)
    ensures
        trim_end(s).len() <= s.len(),
        trim_end(s) == s.take(trim_end(s).len() as int),
        all_white(s.skip(trim_end(s).len() as int)),
        trim_end(s).len() > 0 ==> !is_white(trim_end(s).last()),
    decreases s.len(),
{
    if s.len() > 0 && is_white(s.last()) {
        let t = s.drop_last();
        trim_end_cuts(t);
        let n = trim_end(s).len() as int;
        assert(s.take(n) =~= t.take(n));
        assert forall|i: int| 0 <= i < s.len() - n implies is_white(#[trigger] s.skip(n)[i]) by {
            if n + i < t.len() {
                assert(t.skip(n)[i] == s[n + i]);
            }
        }
    } else {
        assert(s.take(s.len() as int) =~= s);
    }
}

/// Trimming takes the space off both ends and nothing else: what is left neither begins nor ends
/// with space.
pub proof fn trimming_takes_space_off(s: Seq<char>)
    ensures
        trim(s).len() > 0 ==> !is_white(trim(s)[0]) && !is_white(trim(s).last()),
        exists|a: Seq<char>, b: Seq<char>|
            all_white(a) && all_white(b) && #[trigger] (a + trim(s) + b) == s,
{
    let t = trim_start(s);
    trim_start_cuts(s);
    trim_start_shape(s);
    trim_end_cuts(t);
    let a = s.take(s.len() - t.len());
    let b = t.skip(trim(s).len() as int);
    assert(a + trim(s) + b =~= s);
    if trim(s).len() > 0 {
        assert(trim(s)[0] == t[0]);
    }
}

/// Space around a text that neither begins nor ends with space is taken off.
pub proof fn trimmed_text_comes_back(a: Seq<char>, s: Seq<char>, b: Seq<char>)
    requires
        all_white(a),
        all_white(b),
        s.len() > 0 ==> !is_white(s[0]) && !is_white(s.last()),
    ensures
        trim(a + s + b) == s,
    decreases a.len(), b.len(),
{
    let all = a + s + b;
    if s.len() == 0 {
        trimming_takes_space_off(all);
        let (x, y) = choose|x: Seq<char>, y: Seq<char>|
            all_white(x) && all_white(y) && #[trigger] (x + trim(all) + y) == all;
        if trim(all).len() > 0 {
            let at = x.len() as int;
            assert((x + trim(all) + y)[at] == trim(all)[0]);
            assert(is_white(all[at])) by {
                if at < a.len() {
                    assert(all[at] == a[at]);
                } else {
                    assert(all[at] == b[at - a.len()]);
                }
            }
        }
        assert(trim(all) =~= s);
    } else if a.len() > 0 {
        assert(all[0] == a[0]);
        assert(all.drop_first() =~= a.drop_first() + s + b);
        assert forall|i: int| 0 <= i < a.drop_first().len() implies is_white(
            #[trigger] a.drop_first()[i],
        ) by {
            assert(a.drop_first()[i] == a[i + 1]);
        }
        trimmed_text_comes_back(a.drop_first(), s, b);
    } else {
        assert(all =~= s + b);
        assert(all[0] == s[0]);
        assert(trim_start(all) == all);
        back_comes_off(s, b);
    }
}

proof fn back_comes_off(s: Seq<char>, b: Seq<char>)
    requires
        all_white(b),
        s.len() > 0,
        !is_white(s.last()),
    ensures
        trim_end(s + b) == s,
    decreases b.len(),
{
    let all = s + b;
    if b.len() > 0 {
        assert(all.last() == b.last());
        assert(is_white(b[b.len() - 1]));
        assert(all.drop_last() =~= s + b.drop_last());
        assert forall|i: int| 0 <= i < b.drop_last().len() implies is_white(
            #[trigger] b.drop_last()[i],
        ) by {
            assert(b.drop_last()[i] == b[i]);
        }
        back_comes_off(s, b.drop_last());
    } else {
        assert(all =~= s);
    }
}

// --- Words -----------------------------------------------------------------------------------

/// Whether a text is a word: not empty, and without space.
pub open spec fn is_word(s: Seq<char>) -> bool {
    &&& s.len() > 0
    &&& forall|i: int| 0 <= i < s.len() ==> !is_white(#[trigger] s[i])
}

proof fn word_len_behind(w: Seq<char>, rest: Seq<char>)
    requires
        forall|i: int| 0 <= i < w.len() ==> !is_white(#[trigger] w[i]),
        rest.len() == 0 || is_white(rest[0]),
    ensures
        word_len(w + rest) == w.len(),
    decreases w.len(),
{
    let s = w + rest;
    if w.len() > 0 {
        assert(s[0] == w[0]);
        assert(s.drop_first() =~= w.drop_first() + rest);
        assert forall|i: int| 0 <= i < w.drop_first().len() implies !is_white(
            #[trigger] w.drop_first()[i],
        ) by {
            assert(w.drop_first()[i] == w[i + 1]);
        }
        word_len_behind(w.drop_first(), rest);
    } else {
        assert(s =~= rest);
    }
}

/// A word ends at the first space; the words behind it are those of the rest.
pub proof fn words_come_apart(w: Seq<char>, rest: Seq<char>)
    requires
        is_word(w),
        rest.len() == 0 || is_white(rest[0]),
    ensures
        words(w + rest) == seq![w] + words(rest),
{
    let s = w + rest;
    assert(s[0] == w[0]);
    assert(trim_start(s) == s);
    word_len_behind(w, rest);
    assert(s.take(w.len() as int) =~= w);
    assert(s.skip(w.len() as int) =~= rest);
}

/// Space in front of the words says nothing; space alone has no words.
pub proof fn space_is_no_word(s: Seq<char>)
    ensures
        s.len() > 0 && is_white(s[0]) ==> words(s) == words(s.drop_first()),
        s.len() == 0 ==> words(s) == Seq::<Seq<char>>::empty(),
{
    if s.len() > 0 && is_white(s[0]) {
        assert(trim_start(s) == trim_start(s.drop_first()));
    }
}

/// Every word is a word.
pub proof fn words_are_words(s: Seq<char>)
    ensures
        forall|i: int| 0 <= i < words(s).len() ==> is_word(#[trigger] words(s)[i]),
    decreases s.len(),
{
    let t = trim_start(s);
    trim_start_shape(s);
    if t.len() > 0 {
        word_len_range(t);
        let rest = t.skip(word_len(t));
        words_are_words(rest);
        word_len_is_word(t);
        let all = words(s);
        assert(all == seq![t.take(word_len(t))] + words(rest));
        assert forall|i: int| 0 <= i < all.len() implies is_word(#[trigger] all[i]) by {
            if i > 0 {
                assert(all[i] == words(rest)[i - 1]);
            }
        }
    }
}

proof fn word_len_is_word(t: Seq<char>)
    ensures
        0 <= word_len(t) <= t.len(),
        forall|i: int| 0 <= i < word_len(t) ==> !is_white(#[trigger] t[i]),
    decreases t.len(),
{
    if t.len() > 0 && !is_white(t[0]) {
        let r = t.drop_first();
        word_len_is_word(r);
        assert forall|i: int| 0 <= i < word_len(t) implies !is_white(#[trigger] t[i]) by {
            if i > 0 {
                assert(t[i] == r[i - 1]);
            }
        }
    }
}

// --- Parts -----------------------------------------------------------------------------------

/// The place of a part is the first one from where the search begins.
pub proof fn parts_are_found_first(s: Seq<char>, p: Seq<char>, from: int)
    requires
        0 <= from,
    ensures
        match first_part(s, p, from) {
            Some(k) => {
                &&& from <= k
                &&& k + p.len() <= s.len()
                &&& s.subrange(k, k + p.len()) == p
                &&& forall|i: int| from <= i < k ==> !#[trigger] occurs_at(s, p, i)
            },
            None => forall|i: int| from <= i ==> !#[trigger] occurs_at(s, p, i),
        },
    decreases s.len() - from + 1,
{
    if from <= s.len() && !occurs_at(s, p, from) {
        parts_are_found_first(s, p, from + 1);
    }
}

/// Signs go in front of the digits.
pub proof fn signs_go_in_front(n: nat)
    ensures
        signed_decimal(n as int) == decimal(n),
        n > 0 ==> signed_decimal(-(n as int)) == "-"@ + decimal(n),
{
}

} // verus!
