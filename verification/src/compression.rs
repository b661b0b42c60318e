use vstd::prelude::*;

use crate::errors::Error;
use crate::paths::copy_bytes;

verus! {

/// The compression codecs the library can read and write. `Uncompressed`
/// stands for a plain stream.
#[derive(Debug, Clone, Copy, PartialEq, Eq, Structural)]
pub enum CompressionType {
    Uncompressed,
    Brotli,
    Deflate,
    Gzip,
    Xz,
    Zlib,
    Zstd,
}

/// `b` begins with the bytes of `m`.
pub open spec fn starts_with(b: Seq<u8>, m: Seq<u8>) -> bool {
    m.len() <= b.len() && b.take(m.len() as int) == m
}

/// Which codec a stream's leading magic bytes announce. Brotli has no
/// reliable magic and is never detected; an unrecognised prefix counts as
/// uncompressed.
pub open spec fn detect_spec(b: Seq<u8>) -> CompressionType {
    if starts_with(b, seq![0x28u8, 0xb5u8, 0x2fu8, 0xfdu8]) {
        CompressionType::Zstd
    } else if starts_with(b, seq![0x1fu8, 0x8bu8]) {
        CompressionType::Gzip
    } else if starts_with(b, seq![0x78u8, 0x01u8]) {
        CompressionType::Deflate
    } else if starts_with(b, seq![0x78u8, 0x9cu8]) {
        CompressionType::Zlib
    } else if starts_with(b, seq![0xfdu8, 0x37u8, 0x7au8, 0x58u8, 0x5au8, 0x00u8]) {
        CompressionType::Xz
    } else {
        CompressionType::Uncompressed
    }
}

/// Detects the compression codec of a byte stream from its magic bytes.
pub fn detect_compression_type(buffer: &[u8]) -> (r: CompressionType)
    ensures
        r == detect_spec(buffer@),
{
    if buffer.len() >= 4 && buffer[0] == 0x28 && buffer[1] == 0xb5 && buffer[2] == 0x2f
        && buffer[3] == 0xfd {
        proof {
            assert(buffer@.take(4) =~= seq![0x28u8, 0xb5u8, 0x2fu8, 0xfdu8]);
        }
        return CompressionType::Zstd;
    }
    proof {
        assert(!starts_with(buffer@, seq![0x28u8, 0xb5u8, 0x2fu8, 0xfdu8])) by {
            if starts_with(buffer@, seq![0x28u8, 0xb5u8, 0x2fu8, 0xfdu8]) {
                assert(buffer@.take(4)[0] == buffer@[0]);
                assert(buffer@.take(4)[1] == buffer@[1]);
                assert(buffer@.take(4)[2] == buffer@[2]);
                assert(buffer@.take(4)[3] == buffer@[3]);
            }
        }
    }
    if buffer.len() >= 2 && buffer[0] == 0x1f && buffer[1] == 0x8b {
        proof {
            assert(buffer@.take(2) =~= seq![0x1fu8, 0x8bu8]);
        }
        return CompressionType::Gzip;
    }
    proof {
        assert(!starts_with(buffer@, seq![0x1fu8, 0x8bu8])) by {
            if starts_with(buffer@, seq![0x1fu8, 0x8bu8]) {
                assert(buffer@.take(2)[0] == buffer@[0]);
                assert(buffer@.take(2)[1] == buffer@[1]);
            }
        }
    }
    if buffer.len() >= 2 && buffer[0] == 0x78 && buffer[1] == 0x01 {
        proof {
            assert(buffer@.take(2) =~= seq![0x78u8, 0x01u8]);
        }
        return CompressionType::Deflate;
    }
    proof {
        assert(!starts_with(buffer@, seq![0x78u8, 0x01u8])) by {
            if starts_with(buffer@, seq![0x78u8, 0x01u8]) {
                assert(buffer@.take(2)[0] == buffer@[0]);
                assert(buffer@.take(2)[1] == buffer@[1]);
            }
        }
    }
    if buffer.len() >= 2 && buffer[0] == 0x78 && buffer[1] == 0x9c {
        proof {
            assert(buffer@.take(2) =~= seq![0x78u8, 0x9cu8]);
        }
        return CompressionType::Zlib;
    }
    proof {
        assert(!starts_with(buffer@, seq![0x78u8, 0x9cu8])) by {
            if starts_with(buffer@, seq![0x78u8, 0x9cu8]) {
                assert(buffer@.take(2)[0] == buffer@[0]);
                assert(buffer@.take(2)[1] == buffer@[1]);
            }
        }
    }
    if buffer.len() >= 6 && buffer[0] == 0xfd && buffer[1] == 0x37 && buffer[2] == 0x7a
        && buffer[3] == 0x58 && buffer[4] == 0x5a && buffer[5] == 0x00 {
        proof {
            assert(buffer@.take(6) =~= seq![0xfdu8, 0x37u8, 0x7au8, 0x58u8, 0x5au8, 0x00u8]);
        }
        return CompressionType::Xz;
    }
    proof {
        assert(!starts_with(buffer@, seq![0xfdu8, 0x37u8, 0x7au8, 0x58u8, 0x5au8, 0x00u8])) by {
            if starts_with(buffer@, seq![0xfdu8, 0x37u8, 0x7au8, 0x58u8, 0x5au8, 0x00u8]) {
                assert(buffer@.take(6)[0] == buffer@[0]);
                assert(buffer@.take(6)[1] == buffer@[1]);
                assert(buffer@.take(6)[2] == buffer@[2]);
                assert(buffer@.take(6)[3] == buffer@[3]);
                assert(buffer@.take(6)[4] == buffer@[4]);
                assert(buffer@.take(6)[5] == buffer@[5]);
            }
        }
    }
    CompressionType::Uncompressed
}

/// Detects the codec of a stream and keeps the sniffed leading bytes.
pub fn detect_stream_characteristics(data: &[u8]) -> (r: (CompressionType, Vec<u8>))
    ensures
        r.0 == detect_spec(data@),
        r.1@ == (if data@.len() <= 6 {
            data@
        } else {
            data@.take(6)
        }),
{
    let kind = detect_compression_type(data);
    let mut magic: Vec<u8> = Vec::new();
    let mut i: usize = 0;
    let upto: usize = if data.len() < 6 {
        data.len()
    } else {
        6
    };
    while i < upto
        invariant
            upto <= data@.len(),
            i <= upto,
            magic@ =~= data@.take(i as int),
        decreases upto - i,
    {
        magic.push(data[i]);
        proof {
            assert(magic@ =~= data@.take(i + 1));
        }
        i = i + 1;
    }
    proof {
        if data@.len() <= 6 {
            assert(data@.take(data@.len() as int) =~= data@);
        }
    }
    (kind, magic)
}

/// The bytes `zstd` produces for `b` at this library's level.
pub uninterp spec fn zstd_of(b: Seq<u8>) -> Seq<u8>;

/// The bytes hidden inside a zstd stream.
pub uninterp spec fn unzstd_of(b: Seq<u8>) -> Seq<u8>;

/// Whether `b` decodes as a zstd stream at all.
pub uninterp spec fn unzstd_ok(b: Seq<u8>) -> bool;

/// The bytes `flate2`'s gzip encoder produces for `b` at the default level.
pub uninterp spec fn gzip_of(b: Seq<u8>) -> Seq<u8>;

/// The bytes hidden inside a gzip stream.
pub uninterp spec fn gunzip_of(b: Seq<u8>) -> Seq<u8>;

/// Whether `b` decodes as a gzip stream at all.
pub uninterp spec fn gunzip_ok(b: Seq<u8>) -> bool;

/// The bytes `flate2`'s raw deflate encoder produces for `b`.
pub uninterp spec fn deflate_of(b: Seq<u8>) -> Seq<u8>;

/// The bytes hidden inside a raw deflate stream.
pub uninterp spec fn inflate_of(b: Seq<u8>) -> Seq<u8>;

/// Whether `b` decodes as a raw deflate stream at all.
pub uninterp spec fn inflate_ok(b: Seq<u8>) -> bool;

/// The bytes `flate2`'s zlib encoder produces for `b`.
pub uninterp spec fn zlib_of(b: Seq<u8>) -> Seq<u8>;

/// The bytes hidden inside a zlib stream.
pub uninterp spec fn unzlib_of(b: Seq<u8>) -> Seq<u8>;

/// Whether `b` decodes as a zlib stream at all.
pub uninterp spec fn unzlib_ok(b: Seq<u8>) -> bool;

/// The bytes `xz2` produces for `b` at this library's level.
pub uninterp spec fn xz_of(b: Seq<u8>) -> Seq<u8>;

/// The bytes hidden inside an xz stream.
pub uninterp spec fn unxz_of(b: Seq<u8>) -> Seq<u8>;

/// Whether `b` decodes as an xz stream at all.
pub uninterp spec fn unxz_ok(b: Seq<u8>) -> bool;

/// The bytes `brotli` produces for `b` at this library's parameters.
pub uninterp spec fn brotli_of(b: Seq<u8>) -> Seq<u8>;

/// The bytes hidden inside a brotli stream.
pub uninterp spec fn unbrotli_of(b: Seq<u8>) -> Seq<u8>;

/// Whether `b` decodes as a brotli stream at all.
pub uninterp spec fn unbrotli_ok(b: Seq<u8>) -> bool;

/// Relies on zstd::encode_all: the output depends on the input bytes and
/// the fixed level alone; level 6 is a valid level and the in-memory
/// buffers cannot fail, so the call succeeds (allocator exhaustion
/// aside), and every zstd stream carries a nonempty frame header.
#[verifier::external_body]
fn zstd_compress(data: &[u8]) -> (r: Result<Vec<u8>, Error>)
    ensures
        r is Ok,
        r matches Ok(v) ==> v@ == zstd_of(data@) && v@.len() > 0,
{
    zstd::encode_all(data, 6).map_err(|e| Error::IoError(e.to_string()))
}

/// Relies on zstd::decode_all: whether the stream decodes, and to what,
/// depends on the input bytes alone.
#[verifier::external_body]
fn zstd_decompress(data: &[u8]) -> (r: Result<Vec<u8>, Error>)
    ensures
        r is Ok <==> unzstd_ok(data@),
        r matches Ok(v) ==> v@ == unzstd_of(data@),
{
    zstd::decode_all(data).map_err(|e| Error::IoError(e.to_string()))
}

/// Relies on flate2::write::GzEncoder at the default level: the output
/// depends on the input bytes alone (the header carries no timestamp);
/// the in-memory writer cannot fail, so the call succeeds, and the gzip
/// header makes the output nonempty.
#[verifier::external_body]
fn gzip_compress(data: &[u8]) -> (r: Result<Vec<u8>, Error>)
    ensures
        r is Ok,
        r matches Ok(v) ==> v@ == gzip_of(data@) && v@.len() > 0,
{
    let mut enc = flate2::write::GzEncoder::new(Vec::new(), flate2::Compression::default());
    std::io::Write::write_all(&mut enc, data).map_err(|e| Error::IoError(e.to_string()))?;
    enc.finish().map_err(|e| Error::IoError(e.to_string()))
}

/// Relies on flate2::read::GzDecoder: whether the stream decodes, and to
/// what, depends on the input bytes alone.
#[verifier::external_body]
fn gzip_decompress(data: &[u8]) -> (r: Result<Vec<u8>, Error>)
    ensures
        r is Ok <==> gunzip_ok(data@),
        r matches Ok(v) ==> v@ == gunzip_of(data@),
{
    let mut dec = flate2::read::GzDecoder::new(data);
    let mut out = Vec::new();
    std::io::Read::read_to_end(&mut dec, &mut out).map_err(|e| Error::IoError(e.to_string()))?;
    Ok(out)
}

/// Relies on flate2::write::DeflateEncoder at the default level: the
/// in-memory writer cannot fail, so the call succeeds; even an empty
/// input emits a final nonempty block.
#[verifier::external_body]
fn deflate_compress(data: &[u8]) -> (r: Result<Vec<u8>, Error>)
    ensures
        r is Ok,
        r matches Ok(v) ==> v@ == deflate_of(data@) && v@.len() > 0,
{
    let mut enc = flate2::write::DeflateEncoder::new(Vec::new(), flate2::Compression::default());
    std::io::Write::write_all(&mut enc, data).map_err(|e| Error::IoError(e.to_string()))?;
    enc.finish().map_err(|e| Error::IoError(e.to_string()))
}

/// Relies on flate2::read::DeflateDecoder: whether the stream decodes,
/// and to what, depends on the input bytes alone.
#[verifier::external_body]
fn deflate_decompress(data: &[u8]) -> (r: Result<Vec<u8>, Error>)
    ensures
        r is Ok <==> inflate_ok(data@),
        r matches Ok(v) ==> v@ == inflate_of(data@),
{
    let mut dec = flate2::read::DeflateDecoder::new(data);
    let mut out = Vec::new();
    std::io::Read::read_to_end(&mut dec, &mut out).map_err(|e| Error::IoError(e.to_string()))?;
    Ok(out)
}

/// Relies on flate2::write::ZlibEncoder at the default level: the
/// in-memory writer cannot fail, so the call succeeds; the zlib header
/// makes the output nonempty.
#[verifier::external_body]
fn zlib_compress(data: &[u8]) -> (r: Result<Vec<u8>, Error>)
    ensures
        r is Ok,
        r matches Ok(v) ==> v@ == zlib_of(data@) && v@.len() > 0,
{
    let mut enc = flate2::write::ZlibEncoder::new(Vec::new(), flate2::Compression::default());
    std::io::Write::write_all(&mut enc, data).map_err(|e| Error::IoError(e.to_string()))?;
    enc.finish().map_err(|e| Error::IoError(e.to_string()))
}

/// Relies on flate2::read::ZlibDecoder: whether the stream decodes, and
/// to what, depends on the input bytes alone.
#[verifier::external_body]
fn zlib_decompress(data: &[u8]) -> (r: Result<Vec<u8>, Error>)
    ensures
        r is Ok <==> unzlib_ok(data@),
        r matches Ok(v) ==> v@ == unzlib_of(data@),
{
    let mut dec = flate2::read::ZlibDecoder::new(data);
    let mut out = Vec::new();
    std::io::Read::read_to_end(&mut dec, &mut out).map_err(|e| Error::IoError(e.to_string()))?;
    Ok(out)
}

/// Relies on xz2::write::XzEncoder at preset 6: the preset is valid and
/// the in-memory writer cannot fail, so the call succeeds (allocator
/// exhaustion aside); the xz stream header makes the output nonempty.
#[verifier::external_body]
fn xz_compress(data: &[u8]) -> (r: Result<Vec<u8>, Error>)
    ensures
        r is Ok,
        r matches Ok(v) ==> v@ == xz_of(data@) && v@.len() > 0,
{
    let mut enc = xz2::write::XzEncoder::new(Vec::new(), 6);
    std::io::Write::write_all(&mut enc, data).map_err(|e| Error::IoError(e.to_string()))?;
    enc.finish().map_err(|e| Error::IoError(e.to_string()))
}

/// Relies on xz2::read::XzDecoder: whether the stream decodes, and to
/// what, depends on the input bytes alone.
#[verifier::external_body]
fn xz_decompress(data: &[u8]) -> (r: Result<Vec<u8>, Error>)
    ensures
        r is Ok <==> unxz_ok(data@),
        r matches Ok(v) ==> v@ == unxz_of(data@),
{
    let mut dec = xz2::read::XzDecoder::new(data);
    let mut out = Vec::new();
    std::io::Read::read_to_end(&mut dec, &mut out).map_err(|e| Error::IoError(e.to_string()))?;
    Ok(out)
}

/// Relies on brotli::CompressorWriter at this library's parameters: the
/// pure-Rust writer into memory cannot fail, so the call succeeds; even
/// an empty input emits a nonempty stream.
#[verifier::external_body]
fn brotli_compress(data: &[u8]) -> (r: Result<Vec<u8>, Error>)
    ensures
        r is Ok,
        r matches Ok(v) ==> v@ == brotli_of(data@) && v@.len() > 0,
{
    let mut out = Vec::new();
    {
        let mut enc = brotli::CompressorWriter::new(&mut out, 4096, 42, 69);
        std::io::Write::write_all(&mut enc, data).map_err(|e| Error::IoError(e.to_string()))?;
    }
    Ok(out)
}

/// Relies on brotli::Decompressor: whether the stream decodes, and to
/// what, depends on the input bytes alone.
#[verifier::external_body]
fn brotli_decompress(data: &[u8]) -> (r: Result<Vec<u8>, Error>)
    ensures
        r is Ok <==> unbrotli_ok(data@),
        r matches Ok(v) ==> v@ == unbrotli_of(data@),
{
    let mut dec = brotli::Decompressor::new(data, 4096);
    let mut out = Vec::new();
    std::io::Read::read_to_end(&mut dec, &mut out).map_err(|e| Error::IoError(e.to_string()))?;
    Ok(out)
}

/// Whether a stream of the given codec decodes at all. A plain stream
/// always does.
pub open spec fn decompress_ok(t: CompressionType, b: Seq<u8>) -> bool {
    match t {
        CompressionType::Uncompressed => true,
        CompressionType::Brotli => unbrotli_ok(b),
        CompressionType::Deflate => inflate_ok(b),
        CompressionType::Gzip => gunzip_ok(b),
        CompressionType::Xz => unxz_ok(b),
        CompressionType::Zlib => unzlib_ok(b),
        CompressionType::Zstd => unzstd_ok(b),
    }
}

/// The plain bytes a stream of the given codec carries.
pub open spec fn decompress_spec(t: CompressionType, b: Seq<u8>) -> Seq<u8> {
    match t {
        CompressionType::Uncompressed => b,
        CompressionType::Brotli => unbrotli_of(b),
        CompressionType::Deflate => inflate_of(b),
        CompressionType::Gzip => gunzip_of(b),
        CompressionType::Xz => unxz_of(b),
        CompressionType::Zlib => unzlib_of(b),
        CompressionType::Zstd => unzstd_of(b),
    }
}

/// The bytes the given codec produces for plain input `b`.
pub open spec fn compress_spec(t: CompressionType, b: Seq<u8>) -> Seq<u8> {
    match t {
        CompressionType::Uncompressed => b,
        CompressionType::Brotli => brotli_of(b),
        CompressionType::Deflate => deflate_of(b),
        CompressionType::Gzip => gzip_of(b),
        CompressionType::Xz => xz_of(b),
        CompressionType::Zlib => zlib_of(b),
        CompressionType::Zstd => zstd_of(b),
    }
}

/// Decompresses a stream of a known codec.
pub fn decompress(t: CompressionType, data: &[u8]) -> (r: Result<Vec<u8>, Error>)
    ensures
        r is Ok <==> decompress_ok(t, data@),
        r matches Ok(v) ==> v@ == decompress_spec(t, data@),
{
    match t {
        CompressionType::Uncompressed => Ok(crate::paths::copy_bytes_slice(data)),
        CompressionType::Brotli => brotli_decompress(data),
        CompressionType::Deflate => deflate_decompress(data),
        CompressionType::Gzip => gzip_decompress(data),
        CompressionType::Xz => xz_decompress(data),
        CompressionType::Zlib => zlib_decompress(data),
        CompressionType::Zstd => zstd_decompress(data),
    }
}

/// Compresses plain bytes with the given codec. Writing into memory, the
/// codecs cannot fail.
pub fn compress(t: CompressionType, data: &[u8]) -> (r: Result<Vec<u8>, Error>)
    ensures
        r matches Ok(v) && v@ == compress_spec(t, data@),
        t != CompressionType::Uncompressed ==> compress_spec(t, data@).len() > 0,
{
    match t {
        CompressionType::Uncompressed => Ok(crate::paths::copy_bytes_slice(data)),
        CompressionType::Brotli => brotli_compress(data),
        CompressionType::Deflate => deflate_compress(data),
        CompressionType::Gzip => gzip_compress(data),
        CompressionType::Xz => xz_compress(data),
        CompressionType::Zlib => zlib_compress(data),
        CompressionType::Zstd => zstd_compress(data),
    }
}

/// A recompression context: a fully buffered input stream, the codec its
/// magic bytes announce, and the codec the output should carry.
#[derive(Debug)]
pub struct Context {
    pub input_compression_type: CompressionType,
    pub output_compression_type: CompressionType,
    pub magic: Vec<u8>,
    pub data: Vec<u8>,
}

impl Context {
    /// Builds a context by sniffing the input's codec.
    pub fn new_from_stream(input: Vec<u8>, output_compression_type: CompressionType) -> (r:
        Context)
        ensures
            r.input_compression_type == detect_spec(input@),
            r.output_compression_type == output_compression_type,
            r.data@ == input@,
    {
        let (kind, magic) = detect_stream_characteristics(input.as_slice());
        Context { input_compression_type: kind, output_compression_type, magic, data: input }
    }

    /// Re-encodes the buffered input into the output codec. When input and
    /// output codecs agree the bytes pass through unchanged; otherwise the
    /// stream is decompressed and compressed again.
    pub fn translate_stream(&self) -> (r: Result<Vec<u8>, Error>)
        ensures
            self.input_compression_type == self.output_compression_type ==> (r matches Ok(v)
                && v@ == self.data@),
            self.input_compression_type != self.output_compression_type ==> ((r is Ok
                <==> decompress_ok(self.input_compression_type, self.data@)) && (r matches Ok(v)
                ==> v@ == compress_spec(
                self.output_compression_type,
                decompress_spec(self.input_compression_type, self.data@),
            ) && (self.output_compression_type != CompressionType::Uncompressed ==> v@.len()
                > 0))),
    {
        if self.input_compression_type == self.output_compression_type {
            return Ok(copy_bytes(&self.data));
        }
        let plain = match decompress(self.input_compression_type, self.data.as_slice()) {
            Ok(p) => p,
            Err(e) => {
                return Err(e);
            },
        };
        compress(self.output_compression_type, plain.as_slice())
    }

    /// Recompresses `input` into the requested codec, sniffing the input's
    /// own codec from its magic bytes.
    pub fn autocompress(input: Vec<u8>, output_compression_type: CompressionType) -> (r: Result<
        Vec<u8>,
        Error,
    >)
        ensures
            detect_spec(input@) == output_compression_type ==> (r matches Ok(v) && v@
                == input@),
            detect_spec(input@) != output_compression_type ==> ((r is Ok <==> decompress_ok(
                detect_spec(input@),
                input@,
            )) && (r matches Ok(v) ==> v@ == compress_spec(
                output_compression_type,
                decompress_spec(detect_spec(input@), input@),
            ) && (output_compression_type != CompressionType::Uncompressed ==> v@.len() > 0))),
    {
        let ctx = Context::new_from_stream(input, output_compression_type);
        ctx.translate_stream()
    }
}

} // verus!
