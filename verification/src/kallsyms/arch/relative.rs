//! Tables of 32-bit offsets from a relative base.

use crate::byte_io::{i32_at, read_i32};
use crate::error::Error;
use crate::kallsyms::traits::{
    is_table_eof_error, table_fits, AddressParser, RelativeAddressParser,
};
use crate::kallsyms::types::{kallsyms_error_text, KallsymsError};
use vstd::prelude::*;

verus! {

/// Reads little-endian 32-bit signed offsets from a base address.
pub struct RelativeParser;

/// `base + offset` in 64-bit two's-complement arithmetic.
pub open spec fn add_signed(base: u64, offset: i32) -> u64 {
    ((base as int + offset as int) % 0x1_0000_0000_0000_0000) as u64
}

/// The addresses of a relative table: each little-endian `i32` added to
/// `base`, wrapping around.
pub open spec fn relative_addresses(data: Seq<u8>, offset: int, count: int, base: u64) -> Seq<u64> {
    Seq::new(count as nat, |i: int| add_signed(base, i32_at(data, offset + i * 4, false)))
}

/// `base` plus the signed `offset`, wrapping around.
pub fn wrapping_add_signed(base: u64, offset: i32) -> (r: u64)
    ensures
        r == add_signed(base, offset),
{
    let widened = offset as i64 as u64;
    let r = base.wrapping_add(widened);
    assert(r == add_signed(base, offset)) by (bit_vector)
        requires
            widened == offset as i64 as u64,
            r == base.wrapping_add(widened),
    ;
    r
}

impl AddressParser for RelativeParser {
    /// A relative table cannot be read without its base: always the
    /// `UnsupportedFormat` error.
    fn parse_addresses(_data: &[u8], _offset: usize, _count: usize) -> (r: Result<Vec<u64>, Error>)
        ensures
            r matches Err(e) && e is KallsymsNotFound && e->KallsymsNotFound_0@
                == "Unsupported kernel format: "@
                + "Use parse_addresses_with_base for relative format"@,
    {
        let message = crate::text::text("Use parse_addresses_with_base for relative format");
        Err(KallsymsError::UnsupportedFormat(message).into_error())
    }

    fn entry_size() -> (r: usize)
        ensures
            r == 4,
    {
        4
    }

    fn can_parse(_data: &[u8], _offset: usize, _sample_count: usize) -> (r: bool)
        ensures
            r,
    {
        true
    }
}

impl RelativeAddressParser for RelativeParser {
    fn parse_addresses_with_base(data: &[u8], offset: usize, count: usize, base: u64) -> (r:
        Result<Vec<u64>, Error>)
        ensures
            match r {
                Ok(v) => table_fits(offset as int, count as int, 4, data@.len() as int) && v@
                    == relative_addresses(data@, offset as int, count as int, base),
                Err(e) => !table_fits(offset as int, count as int, 4, data@.len() as int)
                    && is_table_eof_error(e, offset, 4),
            },
    {
        let mut addrs: Vec<u64> = Vec::new();
        let mut i: usize = 0;
        while i < count
            invariant
                i <= count,
                i == 0 || offset + i * 4 <= data.len(),
                addrs@ == relative_addresses(data@, offset as int, i as int, base),
            decreases count - i,
        {
            match read_i32(data, offset + i * 4, true) {
                Some(rel) => {
                    addrs.push(wrapping_add_signed(base, rel));
                    i = i + 1;
                    assert(addrs@ =~= relative_addresses(data@, offset as int, i as int, base));
                },
                None => {
                    return Err(KallsymsError::UnexpectedEof { offset, needed: 4 }.into_error());
                },
            }
        }
        Ok(addrs)
    }
}

} // verus!
