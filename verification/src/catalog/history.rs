//! The log of the operations on a repository, signed entry by entry.
//!
//! Every entry carries a keyed hash of its own fields and of the signature before it, so a change
//! anywhere shows.
use crate::bytes::constant_time_eq;
use crate::bytes::hex_text;
use crate::bytes::hex_text_digits;
use crate::bytes::hex_text_injective;
use crate::bytes::to_hex;
use crate::integrity::merkle::positions;
use crate::paths::join_path;
use crate::paths::joined_path;
use crate::primitives::blake3_keyed_hash;
use crate::primitives::json_quoted;
use crate::primitives::keyed_hash_bytes;
use crate::primitives::quote_json;
use crate::primitives::clock_shows;
use crate::primitives::read_clock;
use crate::reading::decimals_tell_numbers_apart;
use crate::text::copy_text;
use crate::text::decimal;
use crate::text::decimal_string;
use crate::text::same_text;
use vstd::prelude::*;
use vstd::utf8::encode_utf8;
use vstd::utf8::encode_utf8_decode_utf8;

verus! {

/// The version of the entries.
pub const HISTORY_VERSION: u32 = 1;

/// What was done to the repository.
#[derive(Debug, Clone, Copy, PartialEq, Eq, Structural)]
pub enum Operation {
    Init,
    Backup,
    Prune,
    KeyRotate,
    Restore,
    Verify,
    /// An operation that this version does not know.
    Other,
}

impl Operation {
    /// The name that the log uses.
    pub open spec fn name(self) -> Seq<char> {
        match self {
            Operation::Init => "init"@,
            Operation::Backup => "backup"@,
            Operation::Prune => "prune"@,
            Operation::KeyRotate => "key_rotate"@,
            Operation::Restore => "restore"@,
            Operation::Verify => "verify"@,
            Operation::Other => "other"@,
        }
    }

    pub fn as_str(&self) -> (out: &'static str)
        ensures
            out@ == self.name(),
    {
        match self {
            Operation::Init => "init",
            Operation::Backup => "backup",
            Operation::Prune => "prune",
            Operation::KeyRotate => "key_rotate",
            Operation::Restore => "restore",
            Operation::Verify => "verify",
            Operation::Other => "other",
        }
    }
}

/// One entry of the log.
#[derive(Debug)]
pub struct HistoryEntry {
    pub version: u32,
    /// Seconds since the Unix epoch.
    pub timestamp: u64,
    pub operation: Operation,
    /// The host or agent that did it.
    pub actor: String,
    /// Details of the operation, as JSON without white space.
    pub details: String,
    /// The keyed hash of the other fields, in hexadecimal.
    pub signature: String,
    /// The signature of the entry before; empty in the first entry.
    pub prev_signature: String,
}

impl Clone for HistoryEntry {
    fn clone(&self) -> (out: Self)
        ensures
            out.version == self.version,
            out.timestamp == self.timestamp,
            out.operation == self.operation,
            out.actor@ == self.actor@,
            out.details@ == self.details@,
            out.signature@ == self.signature@,
            out.prev_signature@ == self.prev_signature@,
    {
        HistoryEntry {
            version: self.version,
            timestamp: self.timestamp,
            operation: self.operation,
            actor: copy_text(self.actor.as_str()),
            details: copy_text(self.details.as_str()),
            signature: copy_text(self.signature.as_str()),
            prev_signature: copy_text(self.prev_signature.as_str()),
        }
    }
}

/// The text that is signed: all fields but the signature, as a JSON object with its keys in
/// order.
pub open spec fn entry_body(e: HistoryEntry) -> Seq<char> {
    "{\"actor\":"@ + json_quoted(e.actor@) + ",\"details\":"@ + e.details@ + ",\"operation\":\""@
        + e.operation.name() + "\",\"prev_signature\":"@ + json_quoted(e.prev_signature@)
        + ",\"timestamp\":"@ + decimal(e.timestamp as nat) + ",\"version\":"@ + decimal(
        e.version as nat,
    ) + "}"@
}

/// The signature that an entry should carry.
pub open spec fn entry_mac(e: HistoryEntry, key: Seq<u8>) -> Seq<char> {
    hex_text(blake3_keyed_hash(key, encode_utf8(entry_body(e)))@)
}

/// The signature before the entry at position `i`.
pub open spec fn signature_before(log: Seq<HistoryEntry>, i: int) -> Seq<char> {
    if i == 0 {
        Seq::empty()
    } else {
        log[i - 1].signature@
    }
}

/// Whether the entry at position `i` does not carry its own signature.
pub open spec fn tampered(log: Seq<HistoryEntry>, key: Seq<u8>, i: int) -> bool {
    log[i].signature@ != entry_mac(log[i], key)
}

/// Whether the entry at position `i` does not follow the one before.
pub open spec fn unlinked(log: Seq<HistoryEntry>, i: int) -> bool {
    log[i].prev_signature@ != signature_before(log, i)
}

/// The positions below `n` of entries without their own signature.
pub open spec fn tampered_upto(log: Seq<HistoryEntry>, key: Seq<u8>, n: nat) -> Seq<int>
    decreases n,
{
    if n == 0 {
        Seq::empty()
    } else if tampered(log, key, n - 1) {
        tampered_upto(log, key, (n - 1) as nat).push(n - 1)
    } else {
        tampered_upto(log, key, (n - 1) as nat)
    }
}

/// The positions below `n` of entries that do not follow the one before.
pub open spec fn unlinked_upto(log: Seq<HistoryEntry>, n: nat) -> Seq<int>
    decreases n,
{
    if n == 0 {
        Seq::empty()
    } else if unlinked(log, n - 1) {
        unlinked_upto(log, (n - 1) as nat).push(n - 1)
    } else {
        unlinked_upto(log, (n - 1) as nat)
    }
}

/// Whether every entry carries its signature and follows the one before.
pub open spec fn clean(log: Seq<HistoryEntry>, key: Seq<u8>) -> bool {
    forall|i: int| 0 <= i < log.len() ==> !#[trigger] tampered(log, key, i) && !unlinked(log, i)
}

proof fn reports_exact(log: Seq<HistoryEntry>, key: Seq<u8>, n: nat)
    requires
        n <= log.len(),
    ensures
        forall|i: int| #[trigger]
            tampered_upto(log, key, n).contains(i) <==> (0 <= i < n && tampered(log, key, i)),
        forall|i: int| #[trigger]
            unlinked_upto(log, n).contains(i) <==> (0 <= i < n && unlinked(log, i)),
    decreases n,
{
    if n > 0 {
        reports_exact(log, key, (n - 1) as nat);
        let t = tampered_upto(log, key, (n - 1) as nat);
        let u = unlinked_upto(log, (n - 1) as nat);
        assert forall|i: int| #[trigger]
            tampered_upto(log, key, n).contains(i) <==> (0 <= i < n && tampered(log, key, i)) by {
            assert(t.contains(i) <==> (0 <= i < n - 1 && tampered(log, key, i)));
            pushed_contains(t, n - 1, i);
        }
        assert forall|i: int| #[trigger]
            unlinked_upto(log, n).contains(i) <==> (0 <= i < n && unlinked(log, i)) by {
            assert(u.contains(i) <==> (0 <= i < n - 1 && unlinked(log, i)));
            pushed_contains(u, n - 1, i);
        }
    }
}

proof fn pushed_contains(s: Seq<int>, x: int, i: int)
    ensures
        s.push(x).contains(i) <==> (s.contains(i) || i == x),
{
    assert(s.push(x)[s.len() as int] == x);
    if s.contains(i) {
        let k = choose|k: int| 0 <= k < s.len() && s[k] == i;
        assert(s.push(x)[k] == i);
    }
    if s.push(x).contains(i) {
        let k = choose|k: int| 0 <= k < s.len() + 1 && s.push(x)[k] == i;
        if k < s.len() {
            assert(s[k] == i);
        }
    }
}

/// A report names no position exactly where the log is clean, and each list names exactly the
/// positions at which its fault is.
pub proof fn report_is_exact(log: Seq<HistoryEntry>, key: Seq<u8>)
    ensures
        (tampered_upto(log, key, log.len()).len() == 0 && unlinked_upto(log, log.len()).len() == 0)
            <==> clean(log, key),
        forall|i: int| #[trigger]
            tampered_upto(log, key, log.len()).contains(i) <==> (0 <= i < log.len() && tampered(
                log,
                key,
                i,
            )),
        forall|i: int| #[trigger]
            unlinked_upto(log, log.len()).contains(i) <==> (0 <= i < log.len() && unlinked(log, i)),
{
    reports_exact(log, key, log.len());
    let t = tampered_upto(log, key, log.len());
    let u = unlinked_upto(log, log.len());
    if t.len() == 0 && u.len() == 0 {
        assert forall|i: int| 0 <= i < log.len() implies !#[trigger] tampered(log, key, i)
            && !unlinked(log, i) by {
            assert(!t.contains(i));
            assert(!u.contains(i));
        }
    }
    if clean(log, key) {
        if t.len() > 0 {
            assert(t.contains(t[0]));
            assert(tampered(log, key, t[0]));
        }
        if u.len() > 0 {
            assert(u.contains(u[0]));
            assert(!tampered(log, key, u[0]));
        }
    }
}

/// Two different texts with the same signature under a key.
pub open spec fn mac_collision(key: Seq<u8>, a: Seq<char>, b: Seq<char>) -> bool {
    a != b && blake3_keyed_hash(key, encode_utf8(a)) == blake3_keyed_hash(key, encode_utf8(b))
}

/// Where an entry of a clean log is replaced and the log is clean again, the new entry carries a
/// valid signature; and where another entry follows, the new entry has the same signed text as
/// the old one, unless two texts share a signature.
pub proof fn replacing_an_entry_shows(
    log: Seq<HistoryEntry>,
    key: Seq<u8>,
    i: int,
    other: HistoryEntry,
)
    requires
        0 <= i < log.len(),
        clean(log, key),
        clean(log.update(i, other), key),
    ensures
        other.signature@ == entry_mac(other, key),
        i + 1 < log.len() ==> entry_body(other) == entry_body(log[i]) || mac_collision(
            key,
            entry_body(other),
            entry_body(log[i]),
        ),
{
    let changed = log.update(i, other);
    assert(!tampered(changed, key, i));
    if i + 1 < log.len() {
        assert(!tampered(changed, key, i + 1));
        assert(!tampered(log, key, i + 1));
        assert(!tampered(log, key, i));
        assert(changed[i + 1] == log[i + 1]);
        assert(signature_before(changed, i + 1) == other.signature@);
        assert(signature_before(log, i + 1) == log[i].signature@);
        let a = blake3_keyed_hash(key, encode_utf8(entry_body(other)));
        let b = blake3_keyed_hash(key, encode_utf8(entry_body(log[i])));
        hex_text_injective(a@, b@);
        assert(a =~= b);
    }
}

/// An entry of a clean log whose signed text is changed while its signature stays is reported,
/// unless two texts share a signature.
pub proof fn changing_an_entry_shows(
    log: Seq<HistoryEntry>,
    key: Seq<u8>,
    i: int,
    other: HistoryEntry,
)
    requires
        0 <= i < log.len(),
        clean(log, key),
        other.signature@ == log[i].signature@,
        entry_body(other) != entry_body(log[i]),
    ensures
        tampered(log.update(i, other), key, i) || mac_collision(
            key,
            entry_body(other),
            entry_body(log[i]),
        ),
{
    assert(!tampered(log, key, i));
    if !tampered(log.update(i, other), key, i) {
        let a = blake3_keyed_hash(key, encode_utf8(entry_body(other)));
        let b = blake3_keyed_hash(key, encode_utf8(entry_body(log[i])));
        hex_text_injective(a@, b@);
        assert(a =~= b);
    }
}

/// Taking an entry out of a clean log breaks the chain at the entry that takes its place, unless
/// the entry has the same signature as the one before it.
pub proof fn deleting_an_entry_shows(log: Seq<HistoryEntry>, key: Seq<u8>, i: int)
    requires
        0 <= i < log.len() - 1,
        clean(log, key),
        log[i].signature@ != signature_before(log, i),
    ensures
        unlinked(log.remove(i), i),
{
    assert(!tampered(log, key, i + 1));
    let rest = log.remove(i);
    assert(rest[i] == log[i + 1]);
    if i > 0 {
        assert(rest[i - 1] == log[i - 1]);
    }
}

/// Taking the first of several entries out of a clean log always breaks the chain.
pub proof fn deleting_the_first_entry_shows(log: Seq<HistoryEntry>, key: Seq<u8>)
    requires
        log.len() > 1,
        clean(log, key),
    ensures
        unlinked(log.remove(0), 0),
{
    assert(!tampered(log, key, 0));
    hex_text_digits(blake3_keyed_hash(key, encode_utf8(entry_body(log[0])))@);
    deleting_an_entry_shows(log, key, 0);
}

/// The text that is signed.
pub fn canonical_body(e: &HistoryEntry) -> (out: String)
    ensures
        out@ == entry_body(*e),
{
    let mut out: String = copy_text("{\"actor\":");
    out.append(quote_json(e.actor.as_str()).as_str());
    out.append(",\"details\":");
    out.append(e.details.as_str());
    out.append(",\"operation\":\"");
    out.append(e.operation.as_str());
    out.append("\",\"prev_signature\":");
    out.append(quote_json(e.prev_signature.as_str()).as_str());
    out.append(",\"timestamp\":");
    out.append(decimal_string(e.timestamp).as_str());
    out.append(",\"version\":");
    out.append(decimal_string(e.version as u64).as_str());
    out.append("}");
    out
}

/// The signature that an entry should carry.
pub fn sign_entry(entry: &HistoryEntry, key: &[u8; 32]) -> (out: String)
    ensures
        out@ == entry_mac(*entry, key@),
{
    let body = canonical_body(entry);
    let mac = keyed_hash_bytes(key, body.as_str().as_bytes());
    to_hex(mac.as_slice())
}

fn equal_texts_constant_time(a: &str, b: &str) -> (same: bool)
    ensures
        same == (a@ == b@),
{
    let same = constant_time_eq(a.as_bytes(), b.as_bytes());
    proof {
        encode_utf8_decode_utf8(a@);
        encode_utf8_decode_utf8(b@);
    }
    same
}

/// What checking the log found.
#[derive(Debug)]
pub struct HistoryVerifyReport {
    pub total: usize,
    /// The positions of entries without their own signature.
    pub tampered_indices: Vec<usize>,
    /// The positions of entries that do not follow the one before.
    pub broken_chain_indices: Vec<usize>,
}

impl HistoryVerifyReport {
    /// Whether nothing was found.
    pub fn is_clean(&self) -> (yes: bool)
        ensures
            yes == (self.tampered_indices@.len() == 0 && self.broken_chain_indices@.len() == 0),
    {
        self.tampered_indices.len() == 0 && self.broken_chain_indices.len() == 0
    }
}

/// The log of a repository.
pub struct History {
    path: String,
    metadata_key: [u8; 32],
    entries: Vec<HistoryEntry>,
}

impl View for History {
    type V = Seq<HistoryEntry>;

    closed spec fn view(&self) -> Seq<HistoryEntry> {
        self.entries@
    }
}

impl History {
    /// The key that signs the entries.
    pub closed spec fn key(&self) -> Seq<u8> {
        self.metadata_key@
    }

    /// Where the log file stands.
    pub closed spec fn file(&self) -> Seq<char> {
        self.path@
    }

    /// The empty log of a repository.
    pub fn open(repo_path: &str, metadata_key: [u8; 32]) -> (out: Self)
        ensures
            out@.len() == 0,
            out.key() == metadata_key@,
            out.file() == joined_path(repo_path@, "history.log"@),
    {
        History { path: join_path(repo_path, "history.log"), metadata_key, entries: Vec::new() }
    }

    /// The log of a repository with the entries of its log file.
    pub fn load(
        repo_path: &str,
        metadata_key: [u8; 32],
        entries: Vec<HistoryEntry>,
    ) -> (out: Self)
        ensures
            out@ == entries@,
            out.key() == metadata_key@,
            out.file() == joined_path(repo_path@, "history.log"@),
    {
        History { path: join_path(repo_path, "history.log"), metadata_key, entries }
    }

    pub fn path(&self) -> (out: &str)
        ensures
            out@ == self.file(),
    {
        self.path.as_str()
    }

    pub fn entries(&self) -> (out: &Vec<HistoryEntry>)
        ensures
            out@ == self@,
    {
        &self.entries
    }

    /// Appends an entry with the given time. A clean log stays clean.
    pub fn record_at(
        &mut self,
        operation: Operation,
        actor: &str,
        details: &str,
        timestamp: u64,
    )
        ensures
            final(self).key() == old(self).key(),
            final(self).file() == old(self).file(),
            final(self)@.len() == old(self)@.len() + 1,
            final(self)@.drop_last() == old(self)@,
            final(self)@.last().version == HISTORY_VERSION,
            final(self)@.last().timestamp == timestamp,
            final(self)@.last().operation == operation,
            final(self)@.last().actor@ == actor@,
            final(self)@.last().details@ == details@,
            final(self)@.last().prev_signature@ == signature_before(
                old(self)@,
                old(self)@.len() as int,
            ),
            final(self)@.last().signature@ == entry_mac(final(self)@.last(), final(self).key()),
            clean(old(self)@, old(self).key()) ==> clean(final(self)@, final(self).key()),
    {
        let ghost before = self.entries@;
        let prev_signature = if self.entries.len() == 0 {
            String::new()
        } else {
            copy_text(self.entries[self.entries.len() - 1].signature.as_str())
        };
        let mut entry = HistoryEntry {
            version: HISTORY_VERSION,
            timestamp,
            operation,
            actor: copy_text(actor),
            details: copy_text(details),
            signature: String::new(),
            prev_signature,
        };
        let signature = sign_entry(&entry, &self.metadata_key);
        entry.signature = signature;
        self.entries.push(entry);
        proof {
            assert(self.entries@.drop_last() =~= before);
            let log = self.entries@;
            let key = self.metadata_key@;
            if clean(before, key) {
                assert forall|i: int| 0 <= i < log.len() implies !#[trigger] tampered(log, key, i)
                    && !unlinked(log, i) by {
                    if i < before.len() {
                        assert(log[i] == before[i]);
                        assert(!tampered(before, key, i));
                        if i > 0 {
                            assert(log[i - 1] == before[i - 1]);
                        }
                    }
                }
            }
        }
    }

    /// Appends an entry with the current time, and hands a copy of it back.
    pub fn record(&mut self, operation: Operation, actor: &str, details: &str) -> (out:
        HistoryEntry)
        ensures
            final(self).key() == old(self).key(),
            final(self).file() == old(self).file(),
            final(self)@.len() == old(self)@.len() + 1,
            final(self)@.drop_last() == old(self)@,
            out.version == HISTORY_VERSION,
            clock_shows(out.timestamp),
            out.operation == operation,
            out.actor@ == actor@,
            out.details@ == details@,
            out.prev_signature@ == signature_before(old(self)@, old(self)@.len() as int),
            out.signature@ == entry_mac(out, final(self).key()),
            final(self)@.last().version == out.version,
            final(self)@.last().timestamp == out.timestamp,
            final(self)@.last().operation == out.operation,
            final(self)@.last().actor@ == out.actor@,
            final(self)@.last().details@ == out.details@,
            final(self)@.last().prev_signature@ == out.prev_signature@,
            final(self)@.last().signature@ == out.signature@,
            entry_body(final(self)@.last()) == entry_body(out),
            clean(old(self)@, old(self).key()) ==> clean(final(self)@, final(self).key()),
    {
        self.record_at(operation, actor, details, read_clock());
        self.entries[self.entries.len() - 1].clone()
    }

    /// Checks every signature and every link of the chain.
    pub fn verify(&self) -> (report: HistoryVerifyReport)
        ensures
            report.total == self@.len(),
            positions(report.tampered_indices@) == tampered_upto(self@, self.key(), self@.len()),
            positions(report.broken_chain_indices@) == unlinked_upto(self@, self@.len()),
            (report.tampered_indices@.len() == 0 && report.broken_chain_indices@.len() == 0)
                <==> clean(self@, self.key()),
    {
        let mut tampered_indices: Vec<usize> = Vec::new();
        let mut broken_chain_indices: Vec<usize> = Vec::new();
        let mut prev_sig: String = String::new();
        let mut i: usize = 0;
        assert(positions(tampered_indices@) =~= Seq::<int>::empty());
        assert(positions(broken_chain_indices@) =~= Seq::<int>::empty());
        while i < self.entries.len()
            invariant
                i <= self.entries@.len(),
                prev_sig@ == signature_before(self.entries@, i as int),
                positions(tampered_indices@) == tampered_upto(
                    self.entries@,
                    self.metadata_key@,
                    i as nat,
                ),
                positions(broken_chain_indices@) == unlinked_upto(self.entries@, i as nat),
            decreases self.entries@.len() - i,
        {
            let entry = &self.entries[i];
            if !same_text(entry.prev_signature.as_str(), prev_sig.as_str()) {
                let ghost was = broken_chain_indices@;
                broken_chain_indices.push(i);
                assert(positions(broken_chain_indices@) =~= positions(was).push(i as int));
            }
            let expected = sign_entry(entry, &self.metadata_key);
            if !equal_texts_constant_time(expected.as_str(), entry.signature.as_str()) {
                let ghost was = tampered_indices@;
                tampered_indices.push(i);
                assert(positions(tampered_indices@) =~= positions(was).push(i as int));
            }
            prev_sig = copy_text(entry.signature.as_str());
            i += 1;
        }
        proof {
            report_is_exact(self.entries@, self.metadata_key@);
        }
        HistoryVerifyReport { total: self.entries.len(), tampered_indices, broken_chain_indices }
    }
}

proof fn middle_counts(front: Seq<char>, a: Seq<char>, b: Seq<char>, back: Seq<char>)
    requires
        front + a + back == front + b + back,
    ensures
        a == b,
{
    let x = front + a + back;
    let y = front + b + back;
    assert(x.len() == front.len() + a.len() + back.len());
    assert(y.len() == front.len() + b.len() + back.len());
    let n = front.len() as int;
    assert(x.subrange(n, n + a.len()) =~= a);
    assert(y.subrange(n, n + b.len()) =~= b);
}

/// The time and the version of an entry are signed: entries with the same body and the same other
/// fields have the same time, and the same version.
pub proof fn times_and_versions_are_signed(a: HistoryEntry, b: HistoryEntry)
    requires
        entry_body(a) == entry_body(b),
        a.actor@ == b.actor@,
        a.details@ == b.details@,
        a.operation == b.operation,
        a.prev_signature@ == b.prev_signature@,
        a.version == b.version || a.timestamp == b.timestamp,
    ensures
        a.timestamp == b.timestamp,
        a.version == b.version,
{
    let front = "{\"actor\":"@ + json_quoted(a.actor@) + ",\"details\":"@ + a.details@
        + ",\"operation\":\""@ + a.operation.name() + "\",\"prev_signature\":"@ + json_quoted(
        a.prev_signature@,
    ) + ",\"timestamp\":"@;
    let ta = decimal(a.timestamp as nat);
    let tb = decimal(b.timestamp as nat);
    let va = decimal(a.version as nat);
    let vb = decimal(b.version as nat);
    if a.version == b.version {
        let back = ",\"version\":"@ + va + "}"@;
        assert(entry_body(a) =~= front + ta + back);
        assert(entry_body(b) =~= front + tb + back);
        middle_counts(front, ta, tb, back);
        decimals_tell_numbers_apart(a.timestamp as nat, b.timestamp as nat);
    } else {
        let head = front + ta + ",\"version\":"@;
        assert(entry_body(a) =~= head + va + "}"@);
        assert(entry_body(b) =~= head + vb + "}"@);
        middle_counts(head, va, vb, "}"@);
        decimals_tell_numbers_apart(a.version as nat, b.version as nat);
    }
}

/// What was done, by whom, and the link to the entry before are signed: entries with the same body
/// that differ in one of these fields at most have the same details, the same operation, and the
/// same actor and link as JSON texts.
pub proof fn deeds_and_links_are_signed(a: HistoryEntry, b: HistoryEntry)
    requires
        entry_body(a) == entry_body(b),
        a.timestamp == b.timestamp,
        a.version == b.version,
    ensures
        a.actor@ == b.actor@ && a.operation == b.operation && a.prev_signature@
            == b.prev_signature@ ==> a.details@ == b.details@,
        a.actor@ == b.actor@ && a.details@ == b.details@ && a.prev_signature@ == b.prev_signature@
            ==> a.operation.name() == b.operation.name(),
        a.details@ == b.details@ && a.operation == b.operation && a.prev_signature@
            == b.prev_signature@ ==> json_quoted(a.actor@) == json_quoted(b.actor@),
        a.actor@ == b.actor@ && a.details@ == b.details@ && a.operation == b.operation
            ==> json_quoted(a.prev_signature@) == json_quoted(b.prev_signature@),
{
    let p1 = "{\"actor\":"@;
    let p2 = ",\"details\":"@;
    let p3 = ",\"operation\":\""@;
    let p4 = "\",\"prev_signature\":"@;
    let end = ",\"timestamp\":"@ + decimal(a.timestamp as nat) + ",\"version\":"@ + decimal(
        a.version as nat,
    ) + "}"@;
    let qa = json_quoted(a.actor@);
    let qb = json_quoted(b.actor@);
    let sa = json_quoted(a.prev_signature@);
    let sb = json_quoted(b.prev_signature@);
    let na = a.operation.name();
    let nb = b.operation.name();
    let x = a.details@;
    let y = b.details@;
    assert(entry_body(a) =~= p1 + qa + p2 + x + p3 + na + p4 + sa + end);
    assert(entry_body(b) =~= p1 + qb + p2 + y + p3 + nb + p4 + sb + end);
    if qa == qb && na == nb && sa == sb {
        let back = p3 + na + p4 + sa + end;
        assert(p1 + qa + p2 + x + p3 + na + p4 + sa + end =~= (p1 + qa + p2) + x + back);
        assert(p1 + qb + p2 + y + p3 + nb + p4 + sb + end =~= (p1 + qa + p2) + y + back);
        middle_counts(p1 + qa + p2, x, y, back);
    }
    if qa == qb && x == y && sa == sb {
        let front = p1 + qa + p2 + x + p3;
        let back = p4 + sa + end;
        assert(p1 + qa + p2 + x + p3 + na + p4 + sa + end =~= front + na + back);
        assert(p1 + qb + p2 + y + p3 + nb + p4 + sb + end =~= front + nb + back);
        middle_counts(front, na, nb, back);
    }
    if x == y && na == nb && sa == sb {
        let back = p2 + x + p3 + na + p4 + sa + end;
        assert(p1 + qa + p2 + x + p3 + na + p4 + sa + end =~= p1 + qa + back);
        assert(p1 + qb + p2 + y + p3 + nb + p4 + sb + end =~= p1 + qb + back);
        middle_counts(p1, qa, qb, back);
    }
    if qa == qb && x == y && na == nb {
        let front = p1 + qa + p2 + x + p3 + na + p4;
        assert(p1 + qa + p2 + x + p3 + na + p4 + sa + end =~= front + sa + end);
        assert(p1 + qb + p2 + y + p3 + nb + p4 + sb + end =~= front + sb + end);
        middle_counts(front, sa, sb, end);
    }
}

/// Operations have different names in the log.
pub proof fn operations_have_names(a: Operation, b: Operation)
    requires
        a.name() == b.name(),
    ensures
        a == b,
{
    reveal_strlit("init");
    reveal_strlit("backup");
    reveal_strlit("prune");
    reveal_strlit("key_rotate");
    reveal_strlit("restore");
    reveal_strlit("verify");
    reveal_strlit("other");
    assert("init"@.len() == 4 && "backup"@.len() == 6 && "prune"@.len() == 5);
    assert("key_rotate"@.len() == 10 && "restore"@.len() == 7 && "verify"@.len() == 6);
    assert("other"@.len() == 5);
    assert("backup"@[0] == 'b' && "verify"@[0] == 'v');
    assert("prune"@[0] == 'p' && "other"@[0] == 'o');
}

/// Whether an entry carries the code of its own body under the key, and the signature of the entry
/// before it; the first carries none.
pub open spec fn in_chain(log: Seq<HistoryEntry>, key: Seq<u8>, i: int) -> bool {
    &&& log[i].signature@ == hex_text(
        blake3_keyed_hash(key, encode_utf8(entry_body(log[i])))@,
    )
    &&& i == 0 ==> log[i].prev_signature@.len() == 0
    &&& i > 0 ==> log[i].prev_signature@ == log[i - 1].signature@
}

proof fn sound_entries_are_in_chain(log: Seq<HistoryEntry>, key: Seq<u8>, i: int)
    requires
        0 <= i < log.len(),
    ensures
        !tampered(log, key, i) && !unlinked(log, i) <==> in_chain(log, key, i),
{
    if log[0].prev_signature@.len() == 0 {
        assert(log[0].prev_signature@ =~= Seq::<char>::empty());
    }
}

/// A clean log is a chain: every entry is signed, and linked to the one before it.
pub proof fn clean_logs_are_chains(log: Seq<HistoryEntry>, key: Seq<u8>)
    ensures
        clean(log, key) <==> forall|i: int| 0 <= i < log.len() ==> #[trigger] in_chain(log, key, i),
{
    assert forall|i: int| 0 <= i < log.len() && clean(log, key) implies #[trigger] in_chain(
        log,
        key,
        i,
    ) by {
        assert(!tampered(log, key, i));
        sound_entries_are_in_chain(log, key, i);
    }
    if forall|i: int| 0 <= i < log.len() ==> #[trigger] in_chain(log, key, i) {
        assert forall|i: int| 0 <= i < log.len() implies !#[trigger] tampered(log, key, i)
            && !unlinked(log, i) by {
            assert(in_chain(log, key, i));
            sound_entries_are_in_chain(log, key, i);
        }
    }
}

/// The version of the entries that are written.
pub proof fn entries_have_a_version()
    ensures
        HISTORY_VERSION == 1,
{
}

} // verus!
