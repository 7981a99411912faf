use kernel_core::compression::{CompressionFormat, Decompressor};
use std::io::Write;
use kernel_core::error::Error;
use kernel_core::test_utils::create_lz4_compressed;

#[test]
fn test_format_detection_gzip() {
    let data = [0x1f, 0x8b, 0x08, 0x00];
    assert_eq!(CompressionFormat::detect(&data), CompressionFormat::Gzip);
}

#[test]
fn test_format_detection_lz4_legacy() {
    let data = [0x02, 0x21, 0x4C, 0x18];
    assert_eq!(CompressionFormat::detect(&data), CompressionFormat::Lz4Legacy);
}

#[test]
fn test_format_detection_unknown() {
    let data = [0x00, 0x00, 0x00, 0x00];
    assert_eq!(CompressionFormat::detect(&data), CompressionFormat::Uncompressed);
}

#[test]
fn other_formats_are_detected() {
    assert_eq!(CompressionFormat::detect(&[0x04, 0x22, 0x4D, 0x18]), CompressionFormat::Lz4Frame);
    assert_eq!(CompressionFormat::detect(&[0x28, 0xB5, 0x2F, 0xFD]), CompressionFormat::Zstd);
    assert_eq!(CompressionFormat::detect(&[0x1f, 0x8b]), CompressionFormat::Uncompressed);
}

#[test]
fn format_names() {
    assert_eq!(CompressionFormat::Lz4Legacy.name(), "LZ4 (Legacy)");
    assert_eq!(CompressionFormat::Lz4Frame.name(), "LZ4 (Frame)");
    assert_eq!(CompressionFormat::Gzip.name(), "Gzip");
    assert_eq!(CompressionFormat::Zstd.name(), "Zstandard");
    assert_eq!(CompressionFormat::Uncompressed.name(), "Uncompressed");
}

#[test]
fn uncompressed_data_is_returned_as_is() {
    let data = vec![9u8, 8, 7, 6, 5];
    assert_eq!(Decompressor::decompress(&data).unwrap(), data);
}

#[test]
fn lz4_legacy_roundtrip() {
    let original = b"kernel kernel kernel kernel kernel image".to_vec();
    let packed = create_lz4_compressed(&original);
    assert_eq!(Decompressor::decompress(&packed).unwrap(), original);
}

#[test]
fn short_lz4_legacy_is_rejected() {
    match Decompressor::decompress(&[0x02, 0x21, 0x4C, 0x18, 1]) {
        Err(Error::Lz4Error(m)) => assert_eq!(m, "Data too short for LZ4 header"),
        _ => panic!("expected an LZ4 error"),
    }
}

#[test]
fn corrupt_zstd_is_reported() {
    match Decompressor::decompress(&[0x28, 0xB5, 0x2F, 0xFD, 0xFF, 0xFF]) {
        Err(Error::DecompressionError(m)) => assert!(m.starts_with("Zstd: ")),
        _ => panic!("expected a decompression error"),
    }
}

#[test]
fn corrupt_gzip_is_reported() {
    match Decompressor::decompress(&[0x1f, 0x8b, 0xFF, 0x00, 0x01]) {
        Err(Error::GzipError(_)) => {},
        _ => panic!("expected a gzip error"),
    }
}

#[test]
fn gzip_stream_is_decompressed() {
    let mut enc = flate2::write::GzEncoder::new(Vec::new(), flate2::Compression::default());
    enc.write_all(b"hello gzip").unwrap();
    let packed = enc.finish().unwrap();
    assert_eq!(Decompressor::decompress(&packed).unwrap(), b"hello gzip".to_vec());
}

#[test]
fn lz4_frame_is_decompressed() {
    let mut enc = lz4_flex::frame::FrameEncoder::new(Vec::new());
    enc.write_all(b"hello frame").unwrap();
    let packed = enc.finish().unwrap();
    assert_eq!(Decompressor::decompress(&packed).unwrap(), b"hello frame".to_vec());
}

#[test]
fn zstd_stream_is_decompressed() {
    let packed = zstd::encode_all(&b"hello zstd"[..], 3).unwrap();
    assert_eq!(Decompressor::decompress(&packed).unwrap(), b"hello zstd".to_vec());
}
