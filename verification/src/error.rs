//! Error type for kernel analysis operations.

use crate::text::{alt_hex_text, push_alt_hex, push_str, text};
use vstd::prelude::*;

verus! {

/// The main error type for kernel analysis operations.
///
/// Messages that come from an outside library (a decompressor, the ELF
/// writer, the file system) are kept as their text.
#[derive(Debug)]
pub enum Error {
    /// Invalid or unsupported boot image format.
    InvalidBootImage(String),
    /// Magic number mismatch when parsing headers.
    MagicMismatch { expected: String, found: String },
    /// Decompression failed.
    DecompressionError(String),
    /// LZ4 specific decompression error.
    Lz4Error(String),
    /// Stream decompression error (Gzip, LZ4 frame), as the I/O error text.
    GzipError(String),
    /// Failed to locate kallsyms in the binary.
    KallsymsNotFound(String),
    /// Symbol table parsing failed.
    SymbolParseError { offset: usize, message: String },
    /// ELF generation failed.
    ElfBuildError(String),
    /// Binary parsing error.
    ParseError(String),
    /// Memory mapping failed.
    MmapError(String),
    /// File not found or access denied (the I/O error as text).
    FileError { path: String, source: String },
    /// Unsupported architecture.
    UnsupportedArch(String),
    /// Generic internal error.
    Internal(String),
}

/// The text an error displays.
pub open spec fn error_text(e: Error) -> Seq<char> {
    match e {
        Error::InvalidBootImage(m) => "Invalid boot image format: "@ + m@,
        Error::MagicMismatch { expected, found } => "Magic number mismatch: expected "@
            + expected@ + ", found "@ + found@,
        Error::DecompressionError(m) => "Decompression failed: "@ + m@,
        Error::Lz4Error(m) => "LZ4 decompression error: "@ + m@,
        Error::GzipError(m) => "Gzip decompression error: "@ + m@,
        Error::KallsymsNotFound(m) => "Kallsyms not found: "@ + m@,
        Error::SymbolParseError { offset, message } => "Symbol table parse error at offset "@
            + alt_hex_text(offset as nat) + ": "@ + message@,
        Error::ElfBuildError(m) => "ELF building error: "@ + m@,
        Error::ParseError(m) => "Parse error: "@ + m@,
        Error::MmapError(m) => "Memory map error: "@ + m@,
        Error::FileError { path, source } => "File access error for '"@ + path@ + "': "@
            + source@,
        Error::UnsupportedArch(m) => "Unsupported architecture: "@ + m@,
        Error::Internal(m) => "Internal error: "@ + m@,
    }
}

/// `head` followed by the text of `tail`.
fn join2(head: &str, tail: &String) -> (r: String)
    ensures
        r@ == head@ + tail@,
{
    let mut s = text(head);
    push_str(&mut s, tail.as_str());
    s
}

impl Error {
    /// The error's message, as it is displayed.
    pub fn message(&self) -> (r: String)
        ensures
            r@ == error_text(*self),
    {
        match self {
            Error::InvalidBootImage(m) => join2("Invalid boot image format: ", m),
            Error::MagicMismatch { expected, found } => {
                let mut s = text("Magic number mismatch: expected ");
                push_str(&mut s, expected.as_str());
                push_str(&mut s, ", found ");
                push_str(&mut s, found.as_str());
                s
            },
            Error::DecompressionError(m) => join2("Decompression failed: ", m),
            Error::Lz4Error(m) => join2("LZ4 decompression error: ", m),
            Error::GzipError(m) => join2("Gzip decompression error: ", m),
            Error::KallsymsNotFound(m) => join2("Kallsyms not found: ", m),
            Error::SymbolParseError { offset, message } => {
                let mut s = text("Symbol table parse error at offset ");
                push_alt_hex(&mut s, *offset as u64);
                push_str(&mut s, ": ");
                push_str(&mut s, message.as_str());
                s
            },
            Error::ElfBuildError(m) => join2("ELF building error: ", m),
            Error::ParseError(m) => join2("Parse error: ", m),
            Error::MmapError(m) => join2("Memory map error: ", m),
            Error::FileError { path, source } => {
                let mut s = text("File access error for '");
                push_str(&mut s, path.as_str());
                push_str(&mut s, "': ");
                push_str(&mut s, source.as_str());
                s
            },
            Error::UnsupportedArch(m) => join2("Unsupported architecture: ", m),
            Error::Internal(m) => join2("Internal error: ", m),
        }
    }
}

} // verus!
