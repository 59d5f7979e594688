//! The outside functions that the library calls: hashing, authenticated encryption, key
//! derivation, compression, random bytes, JSON, dates and text conversions.
use crate::text::opt_text;
use aes_gcm::aead::Aead;
use aes_gcm::Aes256Gcm;
use aes_gcm::KeyInit;
use argon2::password_hash::rand_core::OsRng;
use argon2::password_hash::SaltString;
use argon2::Argon2;
use argon2::PasswordHasher;
use rand::RngCore;
use vstd::prelude::*;
use vstd::utf8::encode_utf8;
use vstd::utf8::valid_utf8;

verus! {

/// What `blake3::hash` returns for the given bytes.
pub uninterp spec fn blake3_hash(data: Seq<u8>) -> [u8; 32];

/// `blake3::hash`: the 32-byte hash of a byte string.
#[verifier::external_body]
pub(crate) fn hash_bytes(data: &[u8]) -> (out: [u8; 32])
    ensures
        out == blake3_hash(data@),
{
    *blake3::hash(data).as_bytes()
}

/// What `blake3::keyed_hash` returns for the given key and bytes.
pub uninterp spec fn blake3_keyed_hash(key: Seq<u8>, data: Seq<u8>) -> [u8; 32];

/// `blake3::keyed_hash`: the 32-byte authentication code of a byte string under a key.
#[verifier::external_body]
pub(crate) fn keyed_hash_bytes(key: &[u8; 32], data: &[u8]) -> (out: [u8; 32])
    ensures
        out == blake3_keyed_hash(key@, data@),
{
    *blake3::keyed_hash(key, data).as_bytes()
}

/// The longest plaintext that AES-GCM encrypts, 2^36 bytes.
pub const PLAINTEXT_MAX: u64 = 68719476736;

/// The ciphertext with its tag that AES-256-GCM makes of a plaintext of at most
/// `PLAINTEXT_MAX` bytes, without associated data.
pub uninterp spec fn aes256gcm_seal(key: Seq<u8>, nonce: Seq<u8>, plaintext: Seq<u8>) -> Seq<u8>;

/// The plaintext that AES-256-GCM gives back for a ciphertext, or `None` where it rejects it.
pub uninterp spec fn aes256gcm_open(
    key: Seq<u8>,
    nonce: Seq<u8>,
    ciphertext: Seq<u8>,
) -> Option<Seq<u8>>;

/// `Aead::encrypt` of `aes_gcm::Aes256Gcm`. It fails exactly on plaintexts above the limit. The
/// result is 16 bytes longer than the plaintext, and decrypting it with the same key and nonce
/// gives the plaintext back. A nonce of another length than 12 would panic.
#[verifier::external_body]
pub(crate) fn seal(key: &[u8; 32], nonce: &[u8], plaintext: &[u8]) -> (out: Option<Vec<u8>>)
    requires
        nonce@.len() == 12,
    ensures
        out is Some <==> plaintext@.len() <= PLAINTEXT_MAX,
        out matches Some(c) ==> {
            &&& c@ == aes256gcm_seal(key@, nonce@, plaintext@)
            &&& c@.len() == plaintext@.len() + 16
            &&& aes256gcm_open(key@, nonce@, c@) == Some(plaintext@)
        },
{
    let cipher = Aes256Gcm::new(aes_gcm::Key::<Aes256Gcm>::from_slice(key));
    cipher.encrypt(aes_gcm::Nonce::from_slice(nonce), plaintext).ok()
}

/// `Aead::decrypt` of `aes_gcm::Aes256Gcm`. It rejects a ciphertext without room for the tag, and
/// what it gives back encrypts to the ciphertext again. A nonce of another length than 12 would
/// panic.
#[verifier::external_body]
pub(crate) fn open(key: &[u8; 32], nonce: &[u8], ciphertext: &[u8]) -> (out: Option<Vec<u8>>)
    requires
        nonce@.len() == 12,
    ensures
        out is Some <==> aes256gcm_open(key@, nonce@, ciphertext@) is Some,
        out matches Some(p) ==> {
            &&& aes256gcm_open(key@, nonce@, ciphertext@) == Some(p@)
            &&& ciphertext@.len() == p@.len() + 16
            &&& p@.len() <= PLAINTEXT_MAX ==> aes256gcm_seal(key@, nonce@, p@) == ciphertext@
        },
{
    let cipher = Aes256Gcm::new(aes_gcm::Key::<Aes256Gcm>::from_slice(key));
    cipher.decrypt(aes_gcm::Nonce::from_slice(nonce), ciphertext).ok()
}

/// The characters that a salt may hold.
pub open spec fn salt_char(c: char) -> bool {
    ||| 'a' <= c <= 'z'
    ||| 'A' <= c <= 'Z'
    ||| '0' <= c <= '9'
    ||| c == '/'
    ||| c == '+'
    ||| c == '.'
    ||| c == '-'
}

/// Whether a text can be a salt: 4 to 64 of those characters.
pub open spec fn salt_ok(salt: Seq<char>) -> bool {
    &&& 4 <= salt.len() <= 64
    &&& forall|i: int| 0 <= i < salt.len() ==> salt_char(#[trigger] salt[i])
}

/// `SaltString::from_b64` of `argon2::password_hash`: whether it accepts the text as a salt.
#[verifier::external_body]
pub(crate) fn accepts_salt(salt: &str) -> (ok: bool)
    ensures
        ok == salt_ok(salt@),
{
    SaltString::from_b64(salt).is_ok()
}

/// `SaltString::generate` of `argon2::password_hash`: a fresh salt, drawn from the operating
/// system's random source.
#[verifier::external_body]
pub(crate) fn fresh_salt() -> (out: String)
    ensures
        salt_ok(out@),
{
    SaltString::generate(&mut OsRng).as_str().to_string()
}

/// What hashing a password with a salt gives: the hash where there is one, or the text of the
/// error.
pub uninterp spec fn argon2_hash(
    password: Seq<u8>,
    salt: Seq<char>,
) -> Result<Option<Seq<u8>>, Seq<char>>;

/// `PasswordHasher::hash_password` of `argon2::Argon2` with the default parameters: the hash of
/// the password for the salt, or the text of the error.
#[verifier::external_body]
pub(crate) fn hash_password(password: &[u8], salt: &str) -> (out: Result<Option<Vec<u8>>, String>)
    requires
        salt_ok(salt@),
    ensures
        match out {
            Ok(Some(h)) => argon2_hash(password@, salt@) == Ok::<_, Seq<char>>(Some(h@)),
            Ok(None) => argon2_hash(password@, salt@) == Ok::<Option<Seq<u8>>, Seq<char>>(None),
            Err(m) => argon2_hash(password@, salt@) == Err::<Option<Seq<u8>>, _>(m@),
        },
{
    let salt = SaltString::from_b64(salt).map_err(|e| e.to_string())?;
    match Argon2::default().hash_password(password, &salt) {
        Ok(hashed) => Ok(hashed.hash.map(|h| h.as_bytes().to_vec())),
        Err(e) => Err(e.to_string()),
    }
}

/// `RngCore::fill_bytes` of `rand::thread_rng`: that many random bytes.
#[verifier::external_body]
pub(crate) fn random_bytes(n: usize) -> (out: Vec<u8>)
    ensures
        out@.len() == n,
{
    let mut out = vec![0u8; n];
    rand::thread_rng().fill_bytes(&mut out);
    out
}

/// What compressing bytes at a level gives: the frame, or the text of the error.
pub uninterp spec fn zstd_encoded(data: Seq<u8>, level: i32) -> Result<Seq<u8>, Seq<char>>;

/// What decompressing bytes gives: the data, or the text of the error.
pub uninterp spec fn zstd_decoded(data: Seq<u8>) -> Result<Seq<u8>, Seq<char>>;

/// `zstd::stream::encode_all`: the bytes as one zstd frame, which decompresses to them again.
#[verifier::external_body]
pub(crate) fn compress(data: &[u8], level: i32) -> (out: Result<Vec<u8>, String>)
    ensures
        match out {
            Ok(c) => {
                &&& zstd_encoded(data@, level) == Ok::<_, Seq<char>>(c@)
                &&& zstd_decoded(c@) == Ok::<_, Seq<char>>(data@)
            },
            Err(m) => zstd_encoded(data@, level) == Err::<Seq<u8>, _>(m@),
        },
{
    zstd::stream::encode_all(data, level).map_err(|e| e.to_string())
}

/// `zstd::stream::decode_all`: the content of the zstd frames, or the text of the error.
#[verifier::external_body]
pub(crate) fn decompress(data: &[u8]) -> (out: Result<Vec<u8>, String>)
    ensures
        match out {
            Ok(c) => zstd_decoded(data@) == Ok::<_, Seq<char>>(c@),
            Err(m) => zstd_decoded(data@) == Err::<Seq<u8>, _>(m@),
        },
{
    zstd::stream::decode_all(data).map_err(|e| e.to_string())
}

/// `String::from_utf8` of the standard library: the text that the bytes encode, where they are
/// well-formed UTF-8.
#[verifier::external_body]
pub(crate) fn text_of(data: Vec<u8>) -> (out: Option<String>)
    ensures
        out is Some <==> valid_utf8(data@),
        out matches Some(s) ==> encode_utf8(s@) == data@,
{
    String::from_utf8(data).ok()
}

/// The JSON string literal that stands for a text.
pub uninterp spec fn json_quoted(text: Seq<char>) -> Seq<char>;

/// `serde_json::to_string` on a text: its JSON string literal, with the quotes and escapes.
/// Serializing a text does not fail.
#[verifier::external_body]
pub(crate) fn quote_json(text: &str) -> (out: String)
    ensures
        out@ == json_quoted(text@),
{
    serde_json::to_string(text).unwrap()
}

/// A field of a JSON object: its name, its value where that is a text, and its value where that
/// is a number of 64 bits without a sign.
pub type JsonField = (String, Option<String>, Option<u64>);

/// A field of a JSON object as plain values.
pub type FieldView = (Seq<char>, Option<Seq<char>>, Option<u64>);

/// The fields of a JSON object as plain values.
pub open spec fn fields_view(fields: Seq<JsonField>) -> Seq<FieldView> {
    Seq::new(
        fields.len(),
        |i: int| (fields[i].0@, opt_text(fields[i].1), fields[i].2),
    )
}

/// The items of a JSON array as plain values: the fields of those that are objects.
pub open spec fn items_view(items: Seq<Option<Vec<JsonField>>>) -> Seq<Option<Seq<FieldView>>> {
    Seq::new(
        items.len(),
        |i: int|
            match items[i] {
                Some(fields) => Some(fields_view(fields@)),
                None => None,
            },
    )
}

/// What a JSON text is: the items of an array, each with its fields where it is an object; no
/// items where it is no array; or the text of the error where it is no JSON.
pub uninterp spec fn json_items(text: Seq<char>) -> Result<
    Option<Seq<Option<Seq<FieldView>>>>,
    Seq<char>,
>;

/// `serde_json::from_str` into a `Value`, the items that `as_array` gives of it, and the fields
/// that `as_object` gives of each.
#[verifier::external_body]
pub(crate) fn parse_json_items(text: &str) -> (out: Result<
    Option<Vec<Option<Vec<JsonField>>>>,
    String,
>)
    ensures
        match out {
            Ok(Some(items)) => json_items(text@) == Ok::<_, Seq<char>>(Some(items_view(items@))),
            Ok(None) => json_items(text@) == Ok::<Option<Seq<Option<Seq<FieldView>>>>, Seq<char>>(
                None,
            ),
            Err(e) => json_items(text@) == Err::<Option<Seq<Option<Seq<FieldView>>>>, _>(e@),
        },
{
    let value: serde_json::Value = serde_json::from_str(text).map_err(|e| e.to_string())?;
    let plain = |(name, v): (&String, &serde_json::Value)| {
        (name.clone(), v.as_str().map(String::from), v.as_u64())
    };
    let fields = |item: &serde_json::Value| item.as_object().map(|o| o.iter().map(plain).collect());
    Ok(value.as_array().map(|items| items.iter().map(fields).collect()))
}

/// The number at a place of a JSON text: `None` where the text is no JSON, and no number where
/// the place has none.
pub uninterp spec fn json_number(data: Seq<u8>, place: Seq<char>) -> Option<Option<u64>>;

/// `serde_json::from_slice` into a `Value`, and the number without a sign that
/// `Value::pointer` finds at a place of it.
#[verifier::external_body]
pub(crate) fn find_json_number(data: &[u8], place: &str) -> (out: Option<Option<u64>>)
    ensures
        out == json_number(data@, place@),
{
    let value: serde_json::Value = serde_json::from_slice(data).ok()?;
    Some(value.pointer(place).and_then(|v| v.as_u64()))
}

/// How dates are written.
pub const DATE_FORMAT: &'static str = "%Y-%m-%d %H:%M:%S";

/// A number of seconds since the Unix epoch as a date in universal time; `None` where it is out
/// of the range of dates.
pub uninterp spec fn utc_date(seconds: i64, format: Seq<char>) -> Option<Seq<char>>;

/// `DateTime::from_timestamp` of chrono, and `DateTime::format` of what it gives: a date in
/// universal time. Other formats may hold what `format` cannot write, and are left out.
#[verifier::external_body]
pub(crate) fn write_date(seconds: i64, format: &str) -> (out: Option<String>)
    requires
        format@ == DATE_FORMAT@,
    ensures
        opt_text(out) == utc_date(seconds, format@),
{
    chrono::DateTime::from_timestamp(seconds, 0).map(|d| d.format(format).to_string())
}

/// A number of bytes in a unit that suits it.
pub uninterp spec fn human_bytes(bytes: u64) -> Seq<char>;

/// `HumanBytes` of indicatif as a text: a number of bytes in a unit that suits it.
#[verifier::external_body]
pub(crate) fn write_bytes(bytes: u64) -> (out: String)
    ensures
        out@ == human_bytes(bytes),
{
    indicatif::HumanBytes(bytes).to_string()
}

/// `SystemTime::now` of the standard library, as seconds since the Unix epoch; zero where the
/// clock stands before it.
#[verifier::external_body]
pub(crate) fn unix_now() -> (seconds: u64) {
    match std::time::SystemTime::now().duration_since(std::time::UNIX_EPOCH) {
        Ok(elapsed) => elapsed.as_secs(),
        Err(_) => 0,
    }
}

/// Whether a number of seconds is what a reading of the clock gave. Nothing but a call of
/// `unix_now` gives such a number.
pub closed spec fn clock_shows(seconds: u64) -> bool {
    call_ensures(unix_now, (), seconds)
}

/// What the clock shows at the time of the call.
pub(crate) fn read_clock() -> (seconds: u64)
    ensures
        clock_shows(seconds),
{
    let clock = unix_now;
    clock()
}

/// A time that the clock shows is what a call of `unix_now` returned.
pub(crate) proof fn shown_times_are_read(seconds: u64)
    ensures
        clock_shows(seconds) <==> call_ensures(unix_now, (), seconds),
{
}

/// Whether bytes were drawn at random. Nothing but a call of `random_bytes` gives such bytes.
pub closed spec fn drawn(bytes: Seq<u8>) -> bool {
    exists|out: Vec<u8>, n: usize| #[trigger]
        call_ensures(random_bytes, (n,), out) && n == bytes.len() && out@ == bytes
}

/// Draws that many random bytes.
pub(crate) fn draw(n: usize) -> (out: Vec<u8>)
    ensures
        out@.len() == n,
        drawn(out@),
{
    let source = random_bytes;
    source(n)
}

/// Drawn bytes are what a call of `random_bytes` for that many bytes returned.
pub(crate) proof fn drawn_bytes_are_random(bytes: Seq<u8>)
    ensures
        drawn(bytes) <==> exists|out: Vec<u8>, n: usize| #[trigger]
            call_ensures(random_bytes, (n,), out) && n == bytes.len() && out@ == bytes,
{
}

/// Whether a salt was drawn at random. Nothing but a call of `fresh_salt` gives such a salt.
pub closed spec fn salt_drawn(salt: Seq<char>) -> bool {
    exists|out: String| #[trigger] call_ensures(fresh_salt, (), out) && out@ == salt
}

/// Draws a random salt.
pub(crate) fn draw_salt() -> (out: String)
    ensures
        salt_ok(out@),
        salt_drawn(out@),
{
    let source = fresh_salt;
    source()
}

/// A drawn salt is what a call of `fresh_salt` returned.
pub(crate) proof fn drawn_salts_are_random(salt: Seq<char>)
    ensures
        salt_drawn(salt) <==> exists|out: String| #[trigger]
            call_ensures(fresh_salt, (), out) && out@ == salt,
{
}

} // verus!
