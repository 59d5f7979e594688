//! Compression of chunks, except of those that hold already compressed data.
//!
//! An encoded chunk starts with a magic number and a flag that says how the rest is encoded.
//! Chunks without the magic number come from older repositories and are plain zstd frames.
use crate::bytes::append_bytes;
use crate::bytes::copy_range;
use crate::error::LazarusError;
use crate::primitives::compress;
use crate::primitives::decompress;
use crate::primitives::zstd_decoded;
use crate::primitives::zstd_encoded;
use crate::text::concat2;
use crate::text::decimal;
use crate::text::decimal_string;
use vstd::prelude::*;

verus! {

/// The rest of the chunk is the data itself.
pub const FLAG_RAW: u8 = 0;

/// The rest of the chunk is a zstd frame.
pub const FLAG_ZSTD: u8 = 1;

/// The compression level.
pub const ZSTD_LEVEL: i32 = 3;

/// The first bytes of a PNG image.
pub open spec fn png_magic() -> Seq<u8> {
    seq![0x89u8, 0x50u8, 0x4eu8, 0x47u8, 0x0du8, 0x0au8, 0x1au8, 0x0au8]
}

/// The first bytes of a JPEG image.
pub open spec fn jpeg_magic() -> Seq<u8> {
    seq![0xffu8, 0xd8u8, 0xffu8]
}

/// The first bytes of a ZIP archive.
pub open spec fn zip_magic() -> Seq<u8> {
    seq![0x50u8, 0x4bu8, 0x03u8, 0x04u8]
}

/// The magic number of an encoded chunk, `LZC1`.
pub open spec fn header_magic() -> Seq<u8> {
    seq![0x4cu8, 0x5au8, 0x43u8, 0x31u8]
}

pub open spec fn has_magic(data: Seq<u8>, magic: Seq<u8>) -> bool {
    magic.len() <= data.len() && data.take(magic.len() as int) == magic
}

/// Whether the data looks as if compressing it would not help.
pub open spec fn already_compressed(data: Seq<u8>) -> bool {
    ||| has_magic(data, png_magic())
    ||| has_magic(data, jpeg_magic())
    ||| has_magic(data, zip_magic())
}

/// An encoded chunk with the given flag and body.
pub open spec fn framed(flag: u8, body: Seq<u8>) -> Seq<u8> {
    header_magic() + seq![flag] + body
}

/// What encoding a chunk gives: the encoded chunk, or the text of the error.
pub open spec fn encoded(chunk: Seq<u8>) -> Result<Seq<u8>, Seq<char>> {
    if already_compressed(chunk) {
        Ok(framed(FLAG_RAW, chunk))
    } else {
        match zstd_encoded(chunk, ZSTD_LEVEL) {
            Ok(body) => Ok(framed(FLAG_ZSTD, body)),
            Err(m) => Err("Compression failed: "@ + m),
        }
    }
}

/// What decoding gives: the chunk, or the text of the error.
pub open spec fn decoded(payload: Seq<u8>) -> Result<Seq<u8>, Seq<char>> {
    if has_magic(payload, header_magic()) {
        if payload.len() == 4 {
            Err("Chunk header missing encoding flag"@)
        } else if payload[4] == FLAG_RAW {
            Ok(payload.skip(5))
        } else if payload[4] == FLAG_ZSTD {
            match zstd_decoded(payload.skip(5)) {
                Ok(data) => Ok(data),
                Err(m) => Err("Decompression failed: "@ + m),
            }
        } else {
            Err("Unknown compression flag: "@ + decimal(payload[4] as nat))
        }
    } else {
        match zstd_decoded(payload) {
            Ok(data) => Ok(data),
            Err(m) => Err("Legacy chunk decode failed: "@ + m),
        }
    }
}

fn starts_with_bytes(data: &[u8], magic: &[u8]) -> (yes: bool)
    ensures
        yes == has_magic(data@, magic@),
{
    if magic.len() > data.len() {
        return false;
    }
    let head = vstd::slice::slice_subrange(data, 0, magic.len());
    assert(head@ =~= data@.take(magic@.len() as int));
    crate::bytes::same_bytes(head, magic)
}

/// Whether a chunk is worth compressing: it is not a PNG or JPEG image nor a ZIP archive.
pub fn should_compress(data: &[u8]) -> (yes: bool)
    ensures
        yes == !already_compressed(data@),
{
    let png: [u8; 8] = [0x89u8, 0x50u8, 0x4eu8, 0x47u8, 0x0du8, 0x0au8, 0x1au8, 0x0au8];
    let jpeg: [u8; 3] = [0xffu8, 0xd8u8, 0xffu8];
    let zip: [u8; 4] = [0x50u8, 0x4bu8, 0x03u8, 0x04u8];
    assert(png@ =~= png_magic());
    assert(jpeg@ =~= jpeg_magic());
    assert(zip@ =~= zip_magic());
    !starts_with_bytes(data, png.as_slice()) && !starts_with_bytes(data, jpeg.as_slice())
        && !starts_with_bytes(data, zip.as_slice())
}

proof fn framed_parts(flag: u8, body: Seq<u8>)
    ensures
        has_magic(framed(flag, body), header_magic()),
        framed(flag, body).len() == 5 + body.len(),
        framed(flag, body)[4] == flag,
        framed(flag, body).skip(5) == body,
{
    assert(framed(flag, body).take(4) =~= header_magic());
    assert(framed(flag, body).skip(5) =~= body);
}

/// Encodes a chunk, compressing it where that is worth it. Decoding the result gives the chunk
/// back.
pub fn encode_chunk(chunk: &[u8]) -> (out: Result<Vec<u8>, LazarusError>)
    ensures
        match out {
            Ok(c) => encoded(chunk@) == Ok::<_, Seq<char>>(c@) && decoded(c@) == Ok::<
                _,
                Seq<char>,
            >(chunk@),
            Err(e) => e is Storage && encoded(chunk@) == Err::<Seq<u8>, _>(e.detail()),
        },
{
    let mut out: Vec<u8> = Vec::new();
    out.push(0x4c);
    out.push(0x5a);
    out.push(0x43);
    out.push(0x31);
    assert(out@ =~= header_magic());
    if should_compress(chunk) {
        match compress(chunk, ZSTD_LEVEL) {
            Ok(body) => {
                out.push(FLAG_ZSTD);
                append_bytes(&mut out, body.as_slice());
                proof {
                    assert(out@ =~= framed(FLAG_ZSTD, body@));
                    framed_parts(FLAG_ZSTD, body@);
                }
                Ok(out)
            },
            Err(m) => Err(LazarusError::Storage(concat2("Compression failed: ", m.as_str()))),
        }
    } else {
        out.push(FLAG_RAW);
        append_bytes(&mut out, chunk);
        proof {
            assert(out@ =~= framed(FLAG_RAW, chunk@));
            framed_parts(FLAG_RAW, chunk@);
        }
        Ok(out)
    }
}

/// Decodes a chunk that `encode_chunk` made, or one of an older repository.
pub fn decode_chunk(payload: &[u8]) -> (out: Result<Vec<u8>, LazarusError>)
    ensures
        match out {
            Ok(d) => decoded(payload@) == Ok::<_, Seq<char>>(d@),
            Err(e) => e is Storage && decoded(payload@) == Err::<Seq<u8>, _>(e.detail()),
        },
{
    let magic: [u8; 4] = [0x4cu8, 0x5au8, 0x43u8, 0x31u8];
    assert(magic@ =~= header_magic());
    if starts_with_bytes(payload, magic.as_slice()) {
        if payload.len() <= 4 {
            return Err(
                LazarusError::Storage(crate::text::copy_text("Chunk header missing encoding flag")),
            );
        }
        let flag: u8 = payload[4];
        let body = copy_range(payload, 5, payload.len());
        assert(body@ =~= payload@.skip(5));
        if flag == FLAG_RAW {
            Ok(body)
        } else if flag == FLAG_ZSTD {
            match decompress(body.as_slice()) {
                Ok(data) => Ok(data),
                Err(m) => Err(LazarusError::Storage(concat2("Decompression failed: ", m.as_str()))),
            }
        } else {
            Err(
                LazarusError::Storage(
                    concat2("Unknown compression flag: ", decimal_string(flag as u64).as_str()),
                ),
            )
        }
    } else {
        match decompress(payload) {
            Ok(data) => Ok(data),
            Err(m) => Err(
                LazarusError::Storage(concat2("Legacy chunk decode failed: ", m.as_str())),
            ),
        }
    }
}

/// An encoded chunk begins with `LZC1`. PNG and JPEG images and ZIP archives follow as they are
/// behind a 0; everything else follows compressed at level 3 behind a 1.
pub proof fn chunks_are_encoded_as_they_need(chunk: Seq<u8>)
    ensures
        ({
            let png = chunk.len() >= 8 && chunk.take(8) == seq![
                0x89u8,
                0x50u8,
                0x4eu8,
                0x47u8,
                0x0du8,
                0x0au8,
                0x1au8,
                0x0au8,
            ];
            let jpeg = chunk.len() >= 3 && chunk.take(3) == seq![0xffu8, 0xd8u8, 0xffu8];
            let zip = chunk.len() >= 4 && chunk.take(4) == seq![0x50u8, 0x4bu8, 0x03u8, 0x04u8];
            let front = seq![0x4cu8, 0x5au8, 0x43u8, 0x31u8];
            &&& already_compressed(chunk) <==> png || jpeg || zip
            &&& png || jpeg || zip ==> encoded(chunk) == Ok::<_, Seq<char>>(
                front + seq![0u8] + chunk,
            )
            &&& !(png || jpeg || zip) ==> (encoded(chunk) is Ok <==> zstd_encoded(chunk, 3) is Ok)
            &&& !(png || jpeg || zip) && zstd_encoded(chunk, 3) is Ok ==> encoded(chunk) == Ok::<
                _,
                Seq<char>,
            >(front + seq![1u8] + zstd_encoded(chunk, 3)->Ok_0)
        }),
{
}

/// What an encoded chunk decodes to: itself behind a 0, and what it decompresses to behind a 1. A
/// chunk without the header is a compressed one of an old repository.
pub proof fn chunks_decode_as_they_say(body: Seq<u8>, payload: Seq<u8>)
    ensures
        ({
            let front = seq![0x4cu8, 0x5au8, 0x43u8, 0x31u8];
            &&& decoded(front + seq![0u8] + body) == Ok::<_, Seq<char>>(body)
            &&& zstd_decoded(body) is Ok ==> decoded(front + seq![1u8] + body) == zstd_decoded(body)
            &&& zstd_decoded(body) is Err ==> decoded(front + seq![1u8] + body) is Err
            &&& decoded(front) is Err
            &&& (payload.len() < 4 || payload.take(4) != front) && zstd_decoded(payload) is Ok
                ==> decoded(payload) == zstd_decoded(payload)
            &&& (payload.len() < 4 || payload.take(4) != front) && zstd_decoded(payload) is Err
                ==> decoded(payload) is Err
            &&& payload.len() >= 5 && payload.take(4) == front && payload[4] > 1 ==> decoded(
                payload,
            ) is Err
        }),
{
    let front = seq![0x4cu8, 0x5au8, 0x43u8, 0x31u8];
    framed_parts(0, body);
    framed_parts(1, body);
    assert(front + seq![0u8] + body == framed(0, body));
    assert(front + seq![1u8] + body == framed(1, body));
    assert(front.take(4) =~= front);
}

} // verus!
