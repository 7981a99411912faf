//! Interfaces for reading kallsyms address tables.
//!
//! Kernels store symbol addresses as 32-bit or 64-bit absolute values, or as
//! 32-bit offsets from a separate base address.

use crate::error::Error;
use crate::kallsyms::types::{kallsyms_error_text, KallsymsError};
use vstd::prelude::*;

verus! {

/// Whether a table of `count` entries of `width` bytes at `offset` lies
/// inside a buffer of `len` bytes (an empty table always does).
pub open spec fn table_fits(offset: int, count: int, width: int, len: int) -> bool {
    count == 0 || (0 <= offset && offset + count * width <= len)
}

/// The error reported when an address table runs past the end of the data:
/// `UnexpectedEof` at the table's offset, as a crate error.
pub open spec fn is_table_eof_error(e: Error, offset: usize, needed: usize) -> bool {
    e is KallsymsNotFound && e->KallsymsNotFound_0@ == kallsyms_error_text(
        KallsymsError::UnexpectedEof { offset, needed },
    )
}

/// Parsing addresses from kallsyms tables.
pub trait AddressParser {
    /// Parse `count` addresses from the table at `offset`.
    fn parse_addresses(data: &[u8], offset: usize, count: usize) -> Result<Vec<u64>, Error>;

    /// The size of each address entry in bytes.
    fn entry_size() -> usize;

    /// Whether this parser can handle the given data.
    fn can_parse(data: &[u8], offset: usize, sample_count: usize) -> bool;
}

/// Parsing addresses stored as offsets from a base address.
pub trait RelativeAddressParser: AddressParser {
    /// Parse `count` addresses from the offsets table at `offset`, adding
    /// each signed offset to `base`.
    fn parse_addresses_with_base(data: &[u8], offset: usize, count: usize, base: u64) -> Result<
        Vec<u64>,
        Error,
    >;
}

} // verus!
