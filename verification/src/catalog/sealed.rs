//! Named secrets, each encrypted with a nonce of its own, in the order of their names.
use crate::primitives::aes256gcm_open;
use crate::primitives::aes256gcm_seal;
use crate::primitives::open;
use crate::primitives::draw;
use crate::primitives::drawn;
use crate::primitives::seal;
use crate::primitives::PLAINTEXT_MAX;
use crate::text::copy_text;
use crate::text::same_text;
use crate::text::texts;
use crate::text::to_chars;
use vstd::prelude::*;

verus! {

/// The order of texts: by the first character in which they differ; a text comes before those
/// that continue it.
pub open spec fn before(a: Seq<char>, b: Seq<char>) -> bool
    decreases a.len(),
{
    if b.len() == 0 {
        false
    } else if a.len() == 0 {
        true
    } else if a[0] != b[0] {
        a[0] < b[0]
    } else {
        before(a.drop_first(), b.drop_first())
    }
}

pub proof fn before_irreflexive(a: Seq<char>)
    ensures
        !before(a, a),
    decreases a.len(),
{
    if a.len() > 0 {
        before_irreflexive(a.drop_first());
    }
}

pub proof fn before_transitive(a: Seq<char>, b: Seq<char>, c: Seq<char>)
    requires
        before(a, b),
        before(b, c),
    ensures
        before(a, c),
    decreases a.len(),
{
    if a.len() > 0 && a[0] == b[0] && b[0] == c[0] {
        before_transitive(a.drop_first(), b.drop_first(), c.drop_first());
    }
}

pub proof fn before_total(a: Seq<char>, b: Seq<char>)
    ensures
        a == b || before(a, b) || before(b, a),
    decreases a.len(),
{
    if a.len() == 0 {
        if b.len() == 0 {
            assert(a =~= b);
        }
    } else if b.len() > 0 && a[0] == b[0] {
        before_total(a.drop_first(), b.drop_first());
        if a.drop_first() == b.drop_first() {
            assert(a =~= seq![a[0]] + a.drop_first());
            assert(b =~= seq![b[0]] + b.drop_first());
        }
    }
}

/// Whether `a` comes before `b`.
pub fn comes_before(a: &str, b: &str) -> (yes: bool)
    ensures
        yes == before(a@, b@),
{
    let x = to_chars(a);
    let y = to_chars(b);
    let mut i: usize = 0;
    assert(x@.skip(0) =~= x@);
    assert(y@.skip(0) =~= y@);
    loop
        invariant
            i <= x@.len(),
            i <= y@.len(),
            x@ == a@,
            y@ == b@,
            before(x@.skip(i as int), y@.skip(i as int)) == before(a@, b@),
        decreases x@.len() - i,
    {
        if i == y.len() {
            return false;
        }
        if i == x.len() {
            return true;
        }
        if x[i] != y[i] {
            return x[i] < y[i];
        }
        assert(x@.skip(i as int).drop_first() =~= x@.skip(i as int + 1));
        assert(y@.skip(i as int).drop_first() =~= y@.skip(i as int + 1));
        i += 1;
    }
}

/// One encrypted secret.
#[derive(Debug)]
pub struct SealedEntry {
    pub name: String,
    pub nonce: Vec<u8>,
    pub ciphertext: Vec<u8>,
}

/// Whether the list has an entry of that name.
pub open spec fn has_entry(s: Seq<SealedEntry>, name: Seq<char>) -> bool {
    exists|i: int| 0 <= i < s.len() && (#[trigger] s[i]).name@ == name
}

pub open spec fn entry_index(s: Seq<SealedEntry>, name: Seq<char>) -> int {
    choose|i: int| 0 <= i < s.len() && (#[trigger] s[i]).name@ == name
}

/// The nonce and the ciphertext of every name.
pub open spec fn entry_map(s: Seq<SealedEntry>) -> Map<Seq<char>, (Seq<u8>, Seq<u8>)> {
    Map::new(
        |name: Seq<char>| has_entry(s, name),
        |name: Seq<char>|
            (s[entry_index(s, name)].nonce@, s[entry_index(s, name)].ciphertext@),
    )
}

/// The names come in ascending order, so none occurs twice.
pub open spec fn ascending(s: Seq<SealedEntry>) -> bool {
    forall|i: int, j: int|
        0 <= i < j < s.len() ==> before((#[trigger] s[i]).name@, (#[trigger] s[j]).name@)
}

/// The entries of a list, where a later entry takes the place of an earlier one of its name.
pub open spec fn collected(s: Seq<SealedEntry>) -> Map<Seq<char>, (Seq<u8>, Seq<u8>)>
    decreases s.len(),
{
    if s.len() == 0 {
        Map::empty()
    } else {
        collected(s.drop_last()).insert(s.last().name@, (s.last().nonce@, s.last().ciphertext@))
    }
}

/// What is stored under a name.
pub open spec fn stored(
    entries: Map<Seq<char>, (Seq<u8>, Seq<u8>)>,
    key: Seq<u8>,
    name: Seq<char>,
) -> Lookup<Seq<u8>> {
    if !entries.dom().contains(name) {
        Lookup::Missing
    } else if entries[name].0.len() != 12 {
        Lookup::BadNonce
    } else {
        match aes256gcm_open(key, entries[name].0, entries[name].1) {
            None => Lookup::Rejected,
            Some(p) => Lookup::Found(p),
        }
    }
}

/// The outcome of a look-up.
#[derive(Debug)]
pub enum Lookup<T> {
    /// There is no such name.
    Missing,
    /// The nonce has a wrong length.
    BadNonce,
    /// The key does not fit the ciphertext.
    Rejected,
    Found(T),
}

/// Named secrets in the order of their names.
#[derive(Debug)]
pub struct SealedMap {
    entries: Vec<SealedEntry>,
}

impl View for SealedMap {
    type V = Map<Seq<char>, (Seq<u8>, Seq<u8>)>;

    closed spec fn view(&self) -> Map<Seq<char>, (Seq<u8>, Seq<u8>)> {
        entry_map(self.entries@)
    }
}

proof fn index_unique(s: Seq<SealedEntry>, i: int)
    requires
        ascending(s),
        0 <= i < s.len(),
    ensures
        entry_index(s, s[i].name@) == i,
        has_entry(s, s[i].name@),
{
    let j = entry_index(s, s[i].name@);
    before_irreflexive(s[i].name@);
    if j < i {
        assert(before(s[j].name@, s[i].name@));
    } else if i < j {
        assert(before(s[i].name@, s[j].name@));
    }
}

impl SealedMap {
    /// The names are in order.
    pub closed spec fn wf(&self) -> bool {
        ascending(self.entries@)
    }

    /// The entries in the order of their names.
    pub closed spec fn listed(&self) -> Seq<SealedEntry> {
        self.entries@
    }

    pub fn new() -> (out: Self)
        ensures
            out.wf(),
            out@ == Map::<Seq<char>, (Seq<u8>, Seq<u8>)>::empty(),
    {
        let out = SealedMap { entries: Vec::new() };
        assert(out@ =~= Map::<Seq<char>, (Seq<u8>, Seq<u8>)>::empty());
        out
    }

    /// The entries in the order of their names.
    pub fn entries(&self) -> (out: &Vec<SealedEntry>)
        requires
            self.wf(),
        ensures
            ascending(out@),
            entry_map(out@) == self@,
            out@ == self.listed(),
    {
        &self.entries
    }

    fn place(&self, name: &str) -> (at: usize)
        requires
            self.wf(),
        ensures
            at <= self.entries@.len(),
            forall|i: int| 0 <= i < at ==> before((#[trigger] self.entries@[i]).name@, name@),
            at < self.entries@.len() ==> !before(self.entries@[at as int].name@, name@),
    {
        let mut i: usize = 0;
        while i < self.entries.len()
            invariant
                i <= self.entries@.len(),
                forall|j: int| 0 <= j < i ==> before((#[trigger] self.entries@[j]).name@, name@),
            decreases self.entries@.len() - i,
        {
            if !comes_before(self.entries[i].name.as_str(), name) {
                return i;
            }
            i += 1;
        }
        i
    }

    /// Puts an entry under its name, in place of the one that may be there.
    pub fn insert(&mut self, entry: SealedEntry)
        requires
            old(self).wf(),
        ensures
            final(self).wf(),
            final(self)@ == old(self)@.insert(entry.name@, (entry.nonce@, entry.ciphertext@)),
    {
        let at = self.place(entry.name.as_str());
        let ghost old_s = self.entries@;
        let ghost name = entry.name@;
        if at < self.entries.len() && same_text(
            self.entries[at].name.as_str(),
            entry.name.as_str(),
        ) {
            self.entries.set(at, entry);
            proof {
                let s = self.entries@;
                assert(ascending(s)) by {
                    assert forall|i: int, j: int| 0 <= i < j < s.len() implies before(
                        (#[trigger] s[i]).name@,
                        (#[trigger] s[j]).name@,
                    ) by {
                        assert(before(old_s[i].name@, old_s[j].name@));
                    }
                }
                Self::inserted(old_s, s, entry, at as int);
            }
        } else {
            self.entries.insert(at, entry);
            proof {
                let s = self.entries@;
                assert(s =~= old_s.insert(at as int, entry));
                assert(ascending(s)) by {
                    assert forall|i: int, j: int| 0 <= i < j < s.len() implies before(
                        (#[trigger] s[i]).name@,
                        (#[trigger] s[j]).name@,
                    ) by {
                        let oi = if i < at {
                            i
                        } else {
                            i - 1
                        };
                        let oj = if j < at {
                            j
                        } else {
                            j - 1
                        };
                        if i != at && j != at {
                            assert(before(old_s[oi].name@, old_s[oj].name@));
                        } else if i == at {
                            before_total(old_s[at as int].name@, name);
                            if oj > at {
                                assert(before(old_s[at as int].name@, old_s[oj].name@));
                                before_transitive(
                                    name,
                                    old_s[at as int].name@,
                                    old_s[oj].name@,
                                );
                            }
                        } else {
                            assert(before(old_s[i].name@, name));
                        }
                    }
                }
                Self::inserted(old_s, s, entry, at as int);
            }
        }
    }

    proof fn inserted(old_s: Seq<SealedEntry>, s: Seq<SealedEntry>, entry: SealedEntry, at: int)
        requires
            ascending(old_s),
            ascending(s),
            (0 <= at < old_s.len() && old_s[at].name@ == entry.name@ && s == old_s.update(
                at,
                entry,
            )) || (0 <= at <= old_s.len() && s == old_s.insert(at, entry)),
        ensures
            entry_map(s) == entry_map(old_s).insert(
                entry.name@,
                (entry.nonce@, entry.ciphertext@),
            ),
    {
        let target = entry_map(old_s).insert(entry.name@, (entry.nonce@, entry.ciphertext@));
        assert(s[at] == entry);
        index_unique(s, at);
        let shift = s.len() - old_s.len();
        assert forall|n: Seq<char>| entry_map(s).dom().contains(n) <==> target.dom().contains(
            n,
        ) by {
            if has_entry(s, n) && n != entry.name@ {
                let i = entry_index(s, n);
                let o = if i < at {
                    i
                } else {
                    i - shift
                };
                assert(old_s[o].name@ == n);
            }
            if has_entry(old_s, n) {
                let o = entry_index(old_s, n);
                let i = if o < at {
                    o
                } else {
                    o + shift
                };
                if n != entry.name@ {
                    assert(s[i].name@ == n);
                }
            }
        }
        assert forall|n: Seq<char>| target.dom().contains(n) implies #[trigger] entry_map(s)[n]
            == target[n] by {
            if n != entry.name@ {
                let o = entry_index(old_s, n);
                index_unique(old_s, o);
                let i = if o < at {
                    o
                } else {
                    o + shift
                };
                assert(s[i] == old_s[o]);
                index_unique(s, i);
            }
        }
        assert(entry_map(s) =~= target);
    }

    /// Takes away the entry of that name, where there is one.
    pub fn remove(&mut self, name: &str)
        requires
            old(self).wf(),
        ensures
            final(self).wf(),
            final(self)@ == old(self)@.remove(name@),
    {
        let at = self.place(name);
        let ghost old_s = self.entries@;
        if at < self.entries.len() && same_text(self.entries[at].name.as_str(), name) {
            let _ = self.entries.remove(at);
            proof {
                let s = self.entries@;
                assert(s =~= old_s.remove(at as int));
                assert(ascending(s)) by {
                    assert forall|i: int, j: int| 0 <= i < j < s.len() implies before(
                        (#[trigger] s[i]).name@,
                        (#[trigger] s[j]).name@,
                    ) by {
                        let oi = if i < at {
                            i
                        } else {
                            i + 1
                        };
                        let oj = if j < at {
                            j
                        } else {
                            j + 1
                        };
                        assert(before(old_s[oi].name@, old_s[oj].name@));
                    }
                }
                let target = entry_map(old_s).remove(name@);
                index_unique(old_s, at as int);
                assert forall|n: Seq<char>|
                    entry_map(s).dom().contains(n) <==> target.dom().contains(n) by {
                    if has_entry(s, n) {
                        let i = entry_index(s, n);
                        let o = if i < at {
                            i
                        } else {
                            i + 1
                        };
                        assert(old_s[o].name@ == n);
                        index_unique(old_s, o);
                    }
                    if has_entry(old_s, n) && n != name@ {
                        let o = entry_index(old_s, n);
                        let i = if o < at {
                            o
                        } else {
                            o - 1
                        };
                        assert(s[i].name@ == n);
                    }
                }
                assert forall|n: Seq<char>| target.dom().contains(n) implies #[trigger] entry_map(
                    s,
                )[n] == target[n] by {
                    let o = entry_index(old_s, n);
                    let i = if o < at {
                        o
                    } else {
                        o - 1
                    };
                    assert(s[i] == old_s[o]);
                    index_unique(s, i);
                }
                assert(entry_map(s) =~= target);
            }
        } else {
            proof {
                if has_entry(old_s, name@) {
                    let o = entry_index(old_s, name@);
                    before_irreflexive(name@);
                    if o > at {
                        assert(before(old_s[at as int].name@, old_s[o].name@));
                    }
                }
                assert(entry_map(old_s).remove(name@) =~= entry_map(old_s));
            }
        }
    }

    /// The entries of a list; of two with one name the later one stays.
    pub fn from_entries(list: Vec<SealedEntry>) -> (out: Self)
        ensures
            out.wf(),
            out@ == collected(list@),
    {
        let mut out = SealedMap::new();
        let mut rest = list;
        let mut turned: Vec<SealedEntry> = Vec::new();
        let ghost all = list@;
        while rest.len() > 0
            invariant
                rest@.len() + turned@.len() == all.len(),
                forall|i: int| 0 <= i < rest@.len() ==> rest@[i] == all[i],
                forall|i: int|
                    0 <= i < turned@.len() ==> #[trigger] turned@[i] == all[all.len() - 1 - i],
            decreases rest@.len(),
        {
            let entry = rest.pop().unwrap();
            turned.push(entry);
        }
        let ghost mut done: int = 0;
        assert(all.take(0) =~= Seq::<SealedEntry>::empty());
        while turned.len() > 0
            invariant
                out.wf(),
                turned@.len() + done == all.len(),
                done >= 0,
                forall|i: int|
                    0 <= i < turned@.len() ==> #[trigger] turned@[i] == all[all.len() - 1 - i],
                out@ == collected(all.take(done)),
            decreases turned@.len(),
        {
            let entry = turned.pop().unwrap();
            assert(entry == all[done]);
            out.insert(entry);
            proof {
                assert(all.take(done + 1).drop_last() =~= all.take(done));
                done = done + 1;
            }
        }
        assert(all.take(done) =~= all);
        out
    }

    /// The names, in ascending order.
    pub fn names(&self) -> (out: Vec<String>)
        requires
            self.wf(),
        ensures
            forall|n: Seq<char>| texts(out@).contains(n) <==> self@.dom().contains(n),
            forall|i: int, j: int|
                0 <= i < j < out@.len() ==> before(#[trigger] texts(out@)[i], #[trigger] texts(out@)[j]),
    {
        let mut out: Vec<String> = Vec::new();
        let mut i: usize = 0;
        while i < self.entries.len()
            invariant
                i <= self.entries@.len(),
                out@.len() == i,
                forall|j: int| 0 <= j < i ==> (#[trigger] out@[j])@ == self.entries@[j].name@,
            decreases self.entries@.len() - i,
        {
            out.push(copy_text(self.entries[i].name.as_str()));
            i += 1;
        }
        proof {
            assert forall|n: Seq<char>| texts(out@).contains(n) <==> self@.dom().contains(n) by {
                if texts(out@).contains(n) {
                    let k = choose|k: int| 0 <= k < texts(out@).len() && texts(out@)[k] == n;
                    assert(self.entries@[k].name@ == n);
                }
                if has_entry(self.entries@, n) {
                    let k = entry_index(self.entries@, n);
                    assert(texts(out@)[k] == n);
                }
            }
        }
        out
    }

    /// Encrypts a secret and stores it under a name. It fails, and changes nothing, where the
    /// secret is too long to encrypt.
    pub fn put(&mut self, key: &[u8; 32], name: &str, plaintext: &[u8]) -> (ok: bool)
        requires
            old(self).wf(),
        ensures
            final(self).wf(),
            ok <==> plaintext@.len() <= PLAINTEXT_MAX,
            !ok ==> final(self)@ == old(self)@,
            ok ==> stored(final(self)@, key@, name@) == Lookup::Found(plaintext@),
            ok ==> final(self)@.dom() == old(self)@.dom().insert(name@),
            forall|n: Seq<char>|
                n != name@ && old(self)@.dom().contains(n) ==> #[trigger] final(self)@[n] == old(
                    self,
                )@[n],
            ok ==> {
                &&& final(self)@[name@].0.len() == 12
                &&& drawn(final(self)@[name@].0)
                &&& final(self)@[name@].1 == aes256gcm_seal(
                    key@,
                    final(self)@[name@].0,
                    plaintext@,
                )
            },
    {
        let nonce = draw(12);
        match seal(key, nonce.as_slice(), plaintext) {
            None => false,
            Some(ciphertext) => {
                let ghost before_map = self@;
                self.insert(SealedEntry { name: copy_text(name), nonce, ciphertext });
                assert(self@.dom() =~= before_map.dom().insert(name@));
                true
            },
        }
    }

    /// Looks a secret up and decrypts it.
    pub fn get(&self, key: &[u8; 32], name: &str) -> (out: Lookup<Vec<u8>>)
        requires
            self.wf(),
        ensures
            match out {
                Lookup::Missing => stored(self@, key@, name@) is Missing,
                Lookup::BadNonce => stored(self@, key@, name@) is BadNonce,
                Lookup::Rejected => stored(self@, key@, name@) is Rejected,
                Lookup::Found(p) => stored(self@, key@, name@) == Lookup::Found(p@),
            },
    {
        let at = self.place(name);
        if at < self.entries.len() && same_text(self.entries[at].name.as_str(), name) {
            let entry = &self.entries[at];
            proof {
                index_unique(self.entries@, at as int);
            }
            if entry.nonce.len() != 12 {
                return Lookup::BadNonce;
            }
            match open(key, entry.nonce.as_slice(), entry.ciphertext.as_slice()) {
                None => Lookup::Rejected,
                Some(p) => Lookup::Found(p),
            }
        } else {
            proof {
                if has_entry(self.entries@, name@) {
                    let o = entry_index(self.entries@, name@);
                    before_irreflexive(name@);
                    if o > at {
                        assert(before(self.entries@[at as int].name@, self.entries@[o].name@));
                    }
                }
            }
            Lookup::Missing
        }
    }
}

/// A secret is found under its name where its nonce has 12 bytes and its ciphertext opens under
/// the key; there is no other way to one.
pub proof fn secrets_are_found_with_the_key(
    entries: Map<Seq<char>, (Seq<u8>, Seq<u8>)>,
    key: Seq<u8>,
    name: Seq<char>,
    secret: Seq<u8>,
)
    ensures
        stored(entries, key, name) == Lookup::Found(secret) <==> {
            &&& entries.dom().contains(name)
            &&& entries[name].0.len() == 12
            &&& aes256gcm_open(key, entries[name].0, entries[name].1) == Some(secret)
        },
        stored(entries, key, name) is Missing <==> !entries.dom().contains(name),
        stored(entries, key, name) is BadNonce <==> entries.dom().contains(name)
            && entries[name].0.len() != 12,
{
}

/// Names are in the order of their characters: a name stands before every longer one that it
/// begins, and else the first character that differs decides.
pub proof fn names_are_ordered_by_characters(front: Seq<char>, a: Seq<char>, b: Seq<char>)
    ensures
        b.len() > 0 ==> before(front, front + b),
        a.len() > 0 && b.len() > 0 && a[0] < b[0] ==> before(front + a, front + b),
    decreases front.len(),
{
    if front.len() > 0 {
        names_are_ordered_by_characters(front.drop_first(), a, b);
        assert((front + a).drop_first() =~= front.drop_first() + a);
        assert((front + b).drop_first() =~= front.drop_first() + b);
    } else {
        assert(front + a =~= a);
        assert(front + b =~= b);
    }
}

} // verus!
