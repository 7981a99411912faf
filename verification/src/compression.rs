//! Kernel decompression.
//!
//! Linux kernel images may be compressed with LZ4 (legacy or frame
//! format), Gzip or Zstd, or be uncompressed; the format is told by the
//! first bytes.

use crate::byte_io::{read_u32, u32_at};
use crate::error::Error;
use crate::text::{push_str, text};
use std::io::Read;
use vstd::prelude::*;

verus! {

/// Supported kernel compression formats.
#[derive(Debug, Clone, Copy, PartialEq, Eq, Structural)]
pub enum CompressionFormat {
    /// LZ4 legacy format (common in Android).
    Lz4Legacy,
    /// LZ4 frame format.
    Lz4Frame,
    /// Gzip compression.
    Gzip,
    /// Zstandard compression.
    Zstd,
    /// Uncompressed kernel.
    Uncompressed,
}

/// The format the first bytes of `d` show: LZ4 legacy `02 21 4C 18`, LZ4
/// frame `04 22 4D 18`, Gzip `1F 8B`, Zstd `28 B5 2F FD`; anything else,
/// or fewer than 4 bytes, is uncompressed.
pub open spec fn detected_format(d: Seq<u8>) -> CompressionFormat {
    if d.len() < 4 {
        CompressionFormat::Uncompressed
    } else if d[0] == 0x02 && d[1] == 0x21 && d[2] == 0x4C && d[3] == 0x18 {
        CompressionFormat::Lz4Legacy
    } else if d[0] == 0x04 && d[1] == 0x22 && d[2] == 0x4D && d[3] == 0x18 {
        CompressionFormat::Lz4Frame
    } else if d[0] == 0x1f && d[1] == 0x8b {
        CompressionFormat::Gzip
    } else if d[0] == 0x28 && d[1] == 0xB5 && d[2] == 0x2F && d[3] == 0xFD {
        CompressionFormat::Zstd
    } else {
        CompressionFormat::Uncompressed
    }
}

/// The human-readable name of a format.
pub open spec fn format_name(f: CompressionFormat) -> Seq<char> {
    match f {
        CompressionFormat::Lz4Legacy => "LZ4 (Legacy)"@,
        CompressionFormat::Lz4Frame => "LZ4 (Frame)"@,
        CompressionFormat::Gzip => "Gzip"@,
        CompressionFormat::Zstd => "Zstandard"@,
        CompressionFormat::Uncompressed => "Uncompressed"@,
    }
}

impl CompressionFormat {
    /// Detect the compression format from the magic bytes.
    pub fn detect(data: &[u8]) -> (r: Self)
        ensures
            r == detected_format(data@),
    {
        if data.len() < 4 {
            return CompressionFormat::Uncompressed;
        }
        if data[0] == 0x02 && data[1] == 0x21 && data[2] == 0x4C && data[3] == 0x18 {
            CompressionFormat::Lz4Legacy
        } else if data[0] == 0x04 && data[1] == 0x22 && data[2] == 0x4D && data[3] == 0x18 {
            CompressionFormat::Lz4Frame
        } else if data[0] == 0x1f && data[1] == 0x8b {
            CompressionFormat::Gzip
        } else if data[0] == 0x28 && data[1] == 0xB5 && data[2] == 0x2F && data[3] == 0xFD {
            CompressionFormat::Zstd
        } else {
            CompressionFormat::Uncompressed
        }
    }

    /// Get the human-readable name.
    pub fn name(&self) -> (r: &'static str)
        ensures
            r@ == format_name(*self),
    {
        match self {
            CompressionFormat::Lz4Legacy => "LZ4 (Legacy)",
            CompressionFormat::Lz4Frame => "LZ4 (Frame)",
            CompressionFormat::Gzip => "Gzip",
            CompressionFormat::Zstd => "Zstandard",
            CompressionFormat::Uncompressed => "Uncompressed",
        }
    }
}

/// What `lz4_flex::decompress` makes of an LZ4 block with room for `size`
/// bytes: the data, or the text of its error.
pub uninterp spec fn lz4_block_decoded(input: Seq<u8>, size: usize) -> Result<Seq<u8>, Seq<char>>;

/// What `lz4_flex::compress` makes of `input`.
pub uninterp spec fn lz4_block_compressed(input: Seq<u8>) -> Seq<u8>;

/// What reading an LZ4 frame to its end gives: the data, or the text of
/// the I/O error.
pub uninterp spec fn lz4_frame_decoded(input: Seq<u8>) -> Result<Seq<u8>, Seq<char>>;

/// What reading a Gzip stream to its end gives: the data, or the text of
/// the I/O error.
pub uninterp spec fn gzip_decoded(input: Seq<u8>) -> Result<Seq<u8>, Seq<char>>;

/// What `zstd::decode_all` gives: the data, or the text of the I/O error.
pub uninterp spec fn zstd_decoded(input: Seq<u8>) -> Result<Seq<u8>, Seq<char>>;

/// `lz4_flex::decompress(input, size)`, its error as text.
///
/// Claimed: the outcome depends on the arguments alone, and the output is
/// at most `size` bytes (the source decodes into a buffer of `size` bytes,
/// reports `OutputTooSmall` instead of writing past it, and truncates);
/// as every `Vec` of bytes, it holds at most `isize::MAX` of them.
#[verifier::external_body]
pub(crate) fn lz4_block_decompress(input: &[u8], size: usize) -> (r: Result<Vec<u8>, String>)
    ensures
        match r {
            Ok(v) => lz4_block_decoded(input@, size) == Ok::<Seq<u8>, Seq<char>>(v@) && v@.len()
                <= size && v@.len() <= isize::MAX,
            Err(t) => lz4_block_decoded(input@, size) == Err::<Seq<u8>, Seq<char>>(t@),
        },
{
    match lz4_flex::decompress(input, size) {
        Ok(v) => Ok(v),
        Err(e) => Err(e.to_string()),
    }
}

/// `lz4_flex::compress(input)`: one LZ4 block.
///
/// Claimed: the block depends on the input alone, and decompressing it
/// with room for the input's length gives the input back (the round trip
/// the crate documents for its block format).
#[verifier::external_body]
pub(crate) fn lz4_block_compress(input: &[u8]) -> (r: Vec<u8>)
    ensures
        r@ == lz4_block_compressed(input@),
        match lz4_block_decoded(r@, input@.len() as usize) {
            Ok(back) => back == input@,
            Err(_) => false,
        },
{
    lz4_flex::compress(input)
}

/// Reads an LZ4 frame to its end with `lz4_flex::frame::FrameDecoder`,
/// the I/O error as text.
///
/// Claimed: the outcome depends on the input alone; as every `Vec` of
/// bytes, the output holds at most `isize::MAX` of them.
#[verifier::external_body]
fn lz4_frame_read(input: &[u8]) -> (r: Result<Vec<u8>, String>)
    ensures
        match r {
            Ok(v) => lz4_frame_decoded(input@) == Ok::<Seq<u8>, Seq<char>>(v@) && v@.len() <= isize::MAX,
            Err(t) => lz4_frame_decoded(input@) == Err::<Seq<u8>, Seq<char>>(t@),
        },
{
    let mut decoder = lz4_flex::frame::FrameDecoder::new(std::io::Cursor::new(input));
    let mut output = Vec::new();
    match decoder.read_to_end(&mut output) {
        Ok(_) => Ok(output),
        Err(e) => Err(e.to_string()),
    }
}

/// Reads a Gzip stream to its end with `flate2::read::GzDecoder`, the I/O
/// error as text.
///
/// Claimed: the outcome depends on the input alone; as every `Vec` of
/// bytes, the output holds at most `isize::MAX` of them.
#[verifier::external_body]
fn gzip_read(input: &[u8]) -> (r: Result<Vec<u8>, String>)
    ensures
        match r {
            Ok(v) => gzip_decoded(input@) == Ok::<Seq<u8>, Seq<char>>(v@) && v@.len() <= isize::MAX,
            Err(t) => gzip_decoded(input@) == Err::<Seq<u8>, Seq<char>>(t@),
        },
{
    let mut decoder = flate2::read::GzDecoder::new(std::io::Cursor::new(input));
    let mut output = Vec::new();
    match decoder.read_to_end(&mut output) {
        Ok(_) => Ok(output),
        Err(e) => Err(e.to_string()),
    }
}

/// `zstd::decode_all` over the input, the I/O error as text.
///
/// Claimed: the outcome depends on the input alone; as every `Vec` of
/// bytes, the output holds at most `isize::MAX` of them.
#[verifier::external_body]
fn zstd_decode_all(input: &[u8]) -> (r: Result<Vec<u8>, String>)
    ensures
        match r {
            Ok(v) => zstd_decoded(input@) == Ok::<Seq<u8>, Seq<char>>(v@) && v@.len() <= isize::MAX,
            Err(t) => zstd_decoded(input@) == Err::<Seq<u8>, Seq<char>>(t@),
        },
{
    match zstd::decode_all(std::io::Cursor::new(input)) {
        Ok(v) => Ok(v),
        Err(e) => Err(e.to_string()),
    }
}

/// The uncompressed size an LZ4 legacy header gives (bytes 4 to 8,
/// little-endian).
pub open spec fn lz4_legacy_size(d: Seq<u8>) -> usize {
    u32_at(d, 4, false) as usize
}

/// Whether `r` is what decompressing `d` gives, by its detected format.
pub open spec fn decompressed(d: Seq<u8>, r: Result<Vec<u8>, Error>) -> bool {
    match detected_format(d) {
        CompressionFormat::Lz4Legacy => if d.len() < 8 {
            r matches Err(e) && e is Lz4Error && e->Lz4Error_0@ == "Data too short for LZ4 header"@
        } else {
            match lz4_block_decoded(d.subrange(8, d.len() as int), lz4_legacy_size(d)) {
                Ok(v) => r matches Ok(out) && out@ == v,
                Err(t) => r matches Err(e) && e is Lz4Error && e->Lz4Error_0@ == t,
            }
        },
        CompressionFormat::Lz4Frame => match lz4_frame_decoded(d) {
            Ok(v) => r matches Ok(out) && out@ == v,
            Err(t) => r matches Err(e) && e is GzipError && e->GzipError_0@ == t,
        },
        CompressionFormat::Gzip => match gzip_decoded(d) {
            Ok(v) => r matches Ok(out) && out@ == v,
            Err(t) => r matches Err(e) && e is GzipError && e->GzipError_0@ == t,
        },
        CompressionFormat::Zstd => match zstd_decoded(d) {
            Ok(v) => r matches Ok(out) && out@ == v,
            Err(t) => r matches Err(e) && e is DecompressionError && e->DecompressionError_0@
                == "Zstd: "@ + t,
        },
        CompressionFormat::Uncompressed => r matches Ok(out) && out@ == d,
    }
}

/// Kernel decompressor that detects and handles the formats.
pub struct Decompressor;

impl Decompressor {
    /// Decompress kernel data, detecting the format (uncompressed data is
    /// returned as it is).
    pub fn decompress(data: &[u8]) -> (r: Result<Vec<u8>, Error>)
        ensures
            decompressed(data@, r),
            r matches Ok(v) ==> v@ == data@ || v@.len() <= isize::MAX,
    {
        let format = CompressionFormat::detect(data);
        match format {
            CompressionFormat::Lz4Legacy => Self::decompress_lz4_legacy(data),
            CompressionFormat::Lz4Frame => Self::decompress_lz4_frame(data),
            CompressionFormat::Gzip => Self::decompress_gzip(data),
            CompressionFormat::Zstd => Self::decompress_zstd(data),
            CompressionFormat::Uncompressed => Ok(vstd::slice::slice_to_vec(data)),
        }
    }

    /// Decompress the LZ4 legacy format: magic, uncompressed size (`u32`
    /// little-endian), then one LZ4 block.
    fn decompress_lz4_legacy(data: &[u8]) -> (r: Result<Vec<u8>, Error>)
        ensures
            r matches Ok(v) ==> v@.len() <= isize::MAX,
            if data@.len() < 8 {
                r matches Err(e) && e is Lz4Error && e->Lz4Error_0@
                    == "Data too short for LZ4 header"@
            } else {
                match lz4_block_decoded(data@.subrange(8, data@.len() as int), lz4_legacy_size(data@)) {
                    Ok(v) => r matches Ok(out) && out@ == v,
                    Err(t) => r matches Err(e) && e is Lz4Error && e->Lz4Error_0@ == t,
                }
            },
    {
        if data.len() < 8 {
            return Err(Error::Lz4Error(text("Data too short for LZ4 header")));
        }
        let uncompressed_size = match read_u32(data, 4, true) {
            Some(v) => v as usize,
            None => 0,
        };
        match lz4_block_decompress(vstd::slice::slice_subrange(data, 8, data.len()), uncompressed_size) {
            Ok(v) => Ok(v),
            Err(t) => Err(Error::Lz4Error(t)),
        }
    }

    /// Decompress the LZ4 frame format.
    fn decompress_lz4_frame(data: &[u8]) -> (r: Result<Vec<u8>, Error>)
        ensures
            r matches Ok(v) ==> v@.len() <= isize::MAX,
            match lz4_frame_decoded(data@) {
                Ok(v) => r matches Ok(out) && out@ == v,
                Err(t) => r matches Err(e) && e is GzipError && e->GzipError_0@ == t,
            },
    {
        match lz4_frame_read(data) {
            Ok(v) => Ok(v),
            Err(t) => Err(Error::GzipError(t)),
        }
    }

    /// Decompress the Gzip format.
    fn decompress_gzip(data: &[u8]) -> (r: Result<Vec<u8>, Error>)
        ensures
            r matches Ok(v) ==> v@.len() <= isize::MAX,
            match gzip_decoded(data@) {
                Ok(v) => r matches Ok(out) && out@ == v,
                Err(t) => r matches Err(e) && e is GzipError && e->GzipError_0@ == t,
            },
    {
        match gzip_read(data) {
            Ok(v) => Ok(v),
            Err(t) => Err(Error::GzipError(t)),
        }
    }

    /// Decompress the Zstandard format.
    fn decompress_zstd(data: &[u8]) -> (r: Result<Vec<u8>, Error>)
        ensures
            r matches Ok(v) ==> v@.len() <= isize::MAX,
            match zstd_decoded(data@) {
                Ok(v) => r matches Ok(out) && out@ == v,
                Err(t) => r matches Err(e) && e is DecompressionError && e->DecompressionError_0@
                    == "Zstd: "@ + t,
            },
    {
        match zstd_decode_all(data) {
            Ok(v) => Ok(v),
            Err(t) => {
                let mut m = text("Zstd: ");
                push_str(&mut m, t.as_str());
                Err(Error::DecompressionError(m))
            },
        }
    }
}

} // verus!
