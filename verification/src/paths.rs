//! File paths as texts.
use crate::reading::first_fields;
use crate::reading::lacks_char;
use crate::reading::lone_fields;
use crate::text::chars_are;
use crate::text::concat2;
use crate::text::concat3;
use crate::text::copy_text;
use crate::text::find_char;
use crate::text::find_char_range;
use crate::text::from_chars;
use crate::text::split;
use crate::text::split_on;
use crate::text::to_chars;
use crate::text::views;
use vstd::prelude::*;

verus! {

/// A path below another one. An absolute path stands for itself.
pub open spec fn joined_path(base: Seq<char>, name: Seq<char>) -> Seq<char> {
    if name.len() > 0 && name[0] == '/' {
        name
    } else if base.len() == 0 || base.last() == '/' {
        base + name
    } else {
        base + "/"@ + name
    }
}

/// The path of `name` below `base`.
pub fn join_path(base: &str, name: &str) -> (out: String)
    ensures
        out@ == joined_path(base@, name@),
{
    let b = to_chars(base);
    let n = to_chars(name);
    if n.len() > 0 && n[0] == '/' {
        copy_text(name)
    } else if b.len() == 0 || b[b.len() - 1] == '/' {
        concat2(base, name)
    } else {
        concat3(base, "/", name)
    }
}

/// Whether a part of a path counts: the empty ones and the dots do not.
pub open spec fn counts(part: Seq<char>) -> bool {
    part.len() > 0 && part != "."@
}

/// The last of several parts that counts.
pub open spec fn last_counting(parts: Seq<Seq<char>>) -> Option<Seq<char>>
    decreases parts.len(),
{
    if parts.len() == 0 {
        None
    } else if counts(parts.last()) {
        Some(parts.last())
    } else {
        last_counting(parts.drop_last())
    }
}

/// The last name of a path; none where it ends in `..` or has no name.
pub open spec fn last_name(path: Seq<char>) -> Option<Seq<char>> {
    match last_counting(split_on(path, '/')) {
        None => None,
        Some(name) => if name == ".."@ {
            None
        } else {
            Some(name)
        },
    }
}

/// The last name of a path.
pub fn file_name(path: &str) -> (out: Option<String>)
    ensures
        out is Some <==> last_name(path@) is Some,
        out matches Some(name) ==> last_name(path@) == Some(name@),
{
    let parts = split(to_chars(path).as_slice(), '/');
    let ghost all = views(parts@);
    let mut n: usize = parts.len();
    assert(all.take(n as int) =~= all);
    while n > 0
        invariant
            n <= parts@.len(),
            all == views(parts@),
            all == split_on(path@, '/'),
            last_counting(all) == last_counting(all.take(n as int)),
        decreases n,
    {
        let part = &parts[n - 1];
        assert(all.take(n as int).last() == part@);
        assert(all.take(n as int).drop_last() =~= all.take(n - 1));
        if part.len() > 0 && !chars_are(part.as_slice(), ".") {
            if chars_are(part.as_slice(), "..") {
                return None;
            }
            return Some(from_chars(part.as_slice()));
        }
        n -= 1;
    }
    None
}

/// A name goes behind a directory with one slash between them; an absolute one stands alone.
pub proof fn names_go_behind_directories(base: Seq<char>, name: Seq<char>)
    ensures
        name.len() > 0 && name[0] == '/' ==> joined_path(base, name) == name,
        base.len() > 0 && base.last() != '/' && (name.len() == 0 || name[0] != '/') ==> joined_path(
            base,
            name,
        ) == base + "/"@ + name,
        base.len() > 0 && base.last() == '/' && (name.len() == 0 || name[0] != '/') ==> joined_path(
            base,
            name,
        ) == base + name,
        base.len() == 0 ==> joined_path(base, name) == name,
{
    if base.len() == 0 {
        assert(base + name =~= name);
    }
}

proof fn parts_end_in_the_last(front: Seq<char>, name: Seq<char>)
    requires
        lacks_char(name, '/'),
    ensures
        split_on(front + seq!['/'] + name, '/') == split_on(front, '/').push(name),
    decreases front.len(),
{
    find_char_range(front, '/');
    let k = find_char(front, '/');
    if k < front.len() {
        let a = front.take(k);
        let rest = front.skip(k + 1);
        parts_end_in_the_last(rest, name);
        assert(front + seq!['/'] + name =~= a + seq!['/'] + (rest + seq!['/'] + name));
        first_fields(a, '/', rest + seq!['/'] + name);
        assert(seq![a] + split_on(rest, '/').push(name) =~= (seq![a] + split_on(rest, '/')).push(
            name,
        ));
    } else {
        first_fields(front, '/', name);
        lone_fields(name, '/');
        lone_fields(front, '/');
        assert(seq![front] + seq![name] =~= seq![front].push(name));
    }
}

/// The last name of a path is what stands behind its last slash, or all of it where it has none. A
/// slash at the end and a dot in place of a name do not count; a path that ends in two dots has
/// no last name.
pub proof fn paths_end_in_their_names(front: Seq<char>, name: Seq<char>)
    requires
        lacks_char(name, '/'),
    ensures
        name.len() > 0 && name != "."@ && name != ".."@ ==> last_name(front + "/"@ + name) == Some(
            name,
        ) && last_name(name) == Some(name),
        name.len() == 0 || name == "."@ ==> last_name(front + "/"@ + name) == last_name(front)
            && last_name(name) is None,
        name == ".."@ ==> last_name(front + "/"@ + name) is None && last_name(name) is None,
{
    reveal_strlit("/");
    reveal_strlit(".");
    reveal_strlit("..");
    reveal_with_fuel(last_counting, 2);
    assert("/"@ =~= seq!['/']);
    assert("."@ != ".."@) by {
        assert("."@.len() == 1 && ".."@.len() == 2);
    }
    parts_end_in_the_last(front, name);
    lone_fields(name, '/');
    let parts = split_on(front, '/');
    assert(parts.push(name).drop_last() =~= parts);
    assert(seq![name].drop_last() =~= Seq::<Seq<char>>::empty());
}

} // verus!
