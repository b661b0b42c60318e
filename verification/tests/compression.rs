use std::io::Write;

use peckish::compression::{detect_compression_type, CompressionType, Context};

#[test]
fn test_none_compression_works() {
    let expected = "this is a test";
    let input_stream = expected.as_bytes().to_vec();

    let ctx = Context::new_from_stream(input_stream, CompressionType::Uncompressed);
    let output_stream = ctx.translate_stream().unwrap();

    assert_eq!(expected.as_bytes(), output_stream.as_slice());
}

#[test]
fn test_zstd_compression_works() {
    let expected = "this is a test";
    let input_stream = expected.as_bytes().to_vec();

    let ctx = Context::new_from_stream(input_stream, CompressionType::Zstd);
    let output_stream = ctx.translate_stream().unwrap();

    let mut compressed_stream: Vec<u8> = Vec::new();
    {
        let mut encoder = zstd::Encoder::new(&mut compressed_stream, 6).unwrap().auto_finish();
        encoder.write_all(expected.as_bytes()).unwrap();
    }

    assert!(!compressed_stream.is_empty());
    assert_eq!(compressed_stream, output_stream);
    assert_ne!(expected.as_bytes(), output_stream.as_slice());
}

#[test]
fn test_brotli_compression_works() {
    let expected = "this is a test";
    let input_stream = expected.as_bytes().to_vec();

    let ctx = Context::new_from_stream(input_stream, CompressionType::Brotli);
    let output_stream = ctx.translate_stream().unwrap();

    let mut compressed_stream: Vec<u8> = Vec::new();
    {
        let mut encoder = brotli::CompressorWriter::new(&mut compressed_stream, 4096, 42, 69);
        encoder.write_all(expected.as_bytes()).unwrap();
    }

    assert!(!compressed_stream.is_empty());
    assert_eq!(compressed_stream, output_stream);
    assert_ne!(expected.as_bytes(), output_stream.as_slice());
}

#[test]
fn test_gzip_compression_works() {
    let expected = "this is a test";
    let input_stream = expected.as_bytes().to_vec();

    let ctx = Context::new_from_stream(input_stream, CompressionType::Gzip);
    let output_stream = ctx.translate_stream().unwrap();

    let mut compressed_stream: Vec<u8> = Vec::new();
    {
        let mut encoder =
            flate2::write::GzEncoder::new(&mut compressed_stream, flate2::Compression::default());
        encoder.write_all(expected.as_bytes()).unwrap();
        encoder.finish().unwrap();
    }

    assert!(!compressed_stream.is_empty());
    assert_eq!(compressed_stream, output_stream);
    assert_ne!(expected.as_bytes(), output_stream.as_slice());
}

#[test]
fn test_deflate_compression_works() {
    let expected = "this is a test";
    let input_stream = expected.as_bytes().to_vec();

    let ctx = Context::new_from_stream(input_stream, CompressionType::Deflate);
    let output_stream = ctx.translate_stream().unwrap();

    let mut compressed_stream: Vec<u8> = Vec::new();
    {
        let mut encoder = flate2::write::DeflateEncoder::new(
            &mut compressed_stream,
            flate2::Compression::default(),
        );
        encoder.write_all(expected.as_bytes()).unwrap();
        encoder.finish().unwrap();
    }

    assert!(!compressed_stream.is_empty());
    assert_eq!(compressed_stream, output_stream);
    assert_ne!(expected.as_bytes(), output_stream.as_slice());
}

#[test]
fn test_zlib_compression_works() {
    let expected = "this is a test";
    let input_stream = expected.as_bytes().to_vec();

    let ctx = Context::new_from_stream(input_stream, CompressionType::Zlib);
    let output_stream = ctx.translate_stream().unwrap();

    let mut compressed_stream: Vec<u8> = Vec::new();
    {
        let mut encoder =
            flate2::write::ZlibEncoder::new(&mut compressed_stream, flate2::Compression::default());
        encoder.write_all(expected.as_bytes()).unwrap();
        encoder.finish().unwrap();
    }

    assert!(!compressed_stream.is_empty());
    assert_eq!(compressed_stream, output_stream);
    assert_ne!(expected.as_bytes(), output_stream.as_slice());
}

#[test]
fn test_xz_compression_works() {
    let expected = "this is a test";
    let input_stream = expected.as_bytes().to_vec();

    let ctx = Context::new_from_stream(input_stream, CompressionType::Xz);
    let output_stream = ctx.translate_stream().unwrap();

    let mut compressed_stream: Vec<u8> = Vec::new();
    {
        let mut encoder = xz2::write::XzEncoder::new(&mut compressed_stream, 6);
        encoder.write_all(expected.as_bytes()).unwrap();
        encoder.finish().unwrap();
    }

    assert!(!compressed_stream.is_empty());
    assert_eq!(compressed_stream, output_stream);
    assert_ne!(expected.as_bytes(), output_stream.as_slice());
}

#[test]
fn test_detect_compression_type_magics() {
    assert_eq!(detect_compression_type(&[0x28, 0xb5, 0x2f, 0xfd, 0, 0]), CompressionType::Zstd);
    assert_eq!(detect_compression_type(&[0x1f, 0x8b, 0, 0]), CompressionType::Gzip);
    assert_eq!(detect_compression_type(&[0x78, 0x01, 0]), CompressionType::Deflate);
    assert_eq!(detect_compression_type(&[0x78, 0x9c, 0]), CompressionType::Zlib);
    assert_eq!(
        detect_compression_type(&[0xfd, 0x37, 0x7a, 0x58, 0x5a, 0x00]),
        CompressionType::Xz
    );
    assert_eq!(detect_compression_type(b"plain"), CompressionType::Uncompressed);
    assert_eq!(detect_compression_type(&[]), CompressionType::Uncompressed);
}

#[test]
fn test_autocompress_roundtrip() {
    let expected = b"round and round the stream goes".to_vec();
    let gz = Context::autocompress(expected.clone(), CompressionType::Gzip).unwrap();
    assert_ne!(gz, expected);
    let back = Context::autocompress(gz, CompressionType::Uncompressed).unwrap();
    assert_eq!(back, expected);
}
