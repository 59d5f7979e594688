//! Objects in a bucket of an S3 service.
use crate::text::concat2;
use crate::text::concat3;
use crate::text::copy_text;
use crate::text::from_chars;
use crate::text::has_prefix;
use crate::text::strip_back_text;
use crate::text::strip_front_text;
use crate::text::strip_prefix;
use crate::text::to_chars;
use crate::text::without_back;
use crate::text::without_front;
use vstd::prelude::*;

verus! {

/// The key of an object below a prefix.
pub open spec fn prefixed_key(prefix: Seq<char>, key: Seq<char>) -> Seq<char> {
    if prefix.len() == 0 {
        without_front(key, '/')
    } else {
        without_back(prefix, '/') + "/"@ + without_front(key, '/')
    }
}

/// The key of a listed object without the prefix.
pub open spec fn unprefixed_key(prefix: Seq<char>, key: Seq<char>) -> Seq<char> {
    let p = without_back(prefix, '/') + "/"@;
    if prefix.len() > 0 && has_prefix(key, p) {
        key.skip(p.len() as int)
    } else {
        key
    }
}

/// The key of an object below a prefix.
pub fn format_key(prefix: &str, key: &str) -> (out: String)
    ensures
        out@ == prefixed_key(prefix@, key@),
{
    let normalized = strip_front_text(key, '/');
    if to_chars(prefix).len() == 0 {
        normalized
    } else {
        concat3(strip_back_text(prefix, '/').as_str(), "/", normalized.as_str())
    }
}

/// The key of a listed object without the prefix.
pub fn strip_key(prefix: &str, key: &str) -> (out: String)
    ensures
        out@ == unprefixed_key(prefix@, key@),
{
    if to_chars(prefix).len() == 0 {
        return copy_text(key);
    }
    let p = concat2(strip_back_text(prefix, '/').as_str(), "/");
    let k = to_chars(key);
    match strip_prefix(k.as_slice(), p.as_str()) {
        Some(rest) => from_chars(rest.as_slice()),
        None => copy_text(key),
    }
}

/// A listing gives back the keys under which objects were stored, but for leading slashes.
pub proof fn listing_gives_keys_back(prefix: Seq<char>, key: Seq<char>)
    ensures
        unprefixed_key(prefix, prefixed_key(prefix, key)) == without_front(key, '/'),
{
    if prefix.len() > 0 {
        let p = without_back(prefix, '/') + "/"@;
        let full = prefixed_key(prefix, key);
        assert(full.take(p.len() as int) =~= p);
        assert(full.skip(p.len() as int) =~= without_front(key, '/'));
    }
}

/// A prefix and a key are put together with one slash between them; without a prefix the key
/// stands alone.
pub proof fn prefixes_come_before_keys(prefix: Seq<char>, key: Seq<char>)
    requires
        key.len() == 0 || key[0] != '/',
        prefix.len() == 0 || prefix.last() != '/',
    ensures
        prefix.len() == 0 ==> prefixed_key(prefix, key) == key,
        prefix.len() > 0 ==> prefixed_key(prefix, key) == prefix + "/"@ + key,
        prefix.len() > 0 ==> prefixed_key(prefix + "/"@, "/"@ + key) == prefix + "/"@ + key,
{
    reveal_strlit("/");
    let p = prefix + "/"@;
    let k = "/"@ + key;
    assert(p.drop_last() =~= prefix);
    assert(k.drop_first() =~= key);
    assert(without_back(p, '/') == without_back(prefix, '/'));
    assert(without_front(k, '/') == without_front(key, '/'));
}

/// What a listing names without the prefix is not changed.
pub proof fn other_keys_are_listed_as_they_are(prefix: Seq<char>, key: Seq<char>)
    requires
        prefix.len() == 0 || !has_prefix(key, without_back(prefix, '/') + "/"@),
    ensures
        unprefixed_key(prefix, key) == key,
{
}

} // verus!
